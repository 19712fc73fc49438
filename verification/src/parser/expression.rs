//! Expressions: additive, multiplicative and comparison expressions and
//! terms, each generating the IR that computes its value.
use vstd::prelude::*;
use crate::lexer::token::{Token, SpecToken, tokens_view, well_formed_stream};
use crate::text::{push_str, push_int, join_strings, strings_view, join};
use crate::parser::program::{find_function, find_variable, lookup_function, SymbolTable, CodeGenState, VarKind};
use crate::parser::model::{
    SExpr, ArgsOutcome, combine_spec, next_temp, has_room, counters_within, temp_name, spec_expression,
    spec_expression_rest, spec_multiply, spec_multiply_rest, spec_term, spec_call, spec_variable, spec_call_args, spec_boolean,
};
use crate::parser::statement::create_temp;

verus! {

pub struct Expression {
    pub code: String,
    pub name: String,
}

impl View for Expression {
    type V = SExpr;

    open spec fn view(&self) -> SExpr {
        SExpr { code: self.code@, name: self.name@ }
    }
}

pub open spec fn expr_result_view(r: Result<Expression, String>) -> Result<SExpr, Seq<char>> {
    match r {
        Ok(e) => Ok(e@),
        Err(s) => Err(s@),
    }
}

/// Combines two already-evaluated expressions with a binary operator into a new temp.
fn combine(left: Expression, right: Expression, op: &str, state: &mut CodeGenState) -> (r: Expression)
    requires
        old(state).temp_counter < usize::MAX,
    ensures
        r@ == combine_spec(left@, right@, op@, old(state)@.temp_counter),
        final(state)@ == next_temp(old(state)@),
{
    let dest = create_temp(state);
    let mut code = String::new();
    push_str(&mut code, left.code.as_str());
    push_str(&mut code, right.code.as_str());
    push_str(&mut code, "%int ");
    push_str(&mut code, dest.as_str());
    push_str(&mut code, "\n%");
    push_str(&mut code, op);
    push_str(&mut code, " ");
    push_str(&mut code, dest.as_str());
    push_str(&mut code, ", ");
    push_str(&mut code, left.name.as_str());
    push_str(&mut code, ", ");
    push_str(&mut code, right.name.as_str());
    push_str(&mut code, "\n");
    let r = Expression { code, name: dest };
    assert(r@.code =~= combine_spec(left@, right@, op@, old(state)@.temp_counter).code);
    r
}

/// Parses additive expressions: `term ((+ | -) term)*`,
/// e.g. `a + b - (c * d) / (f + g - 8)`.
pub fn parse_expression(
    tokens: &[Token],
    index: &mut usize,
    table: &mut SymbolTable,
    current_func: &str,
    state: &mut CodeGenState,
) -> (r: Result<Expression, String>)
    requires
        well_formed_stream(tokens_view(tokens@), *old(index) as int),
        has_room(old(state)@, tokens@.len(), *old(index) as int),
    ensures
        ({
            let o = spec_expression(tokens_view(tokens@), *old(index) as int, old(table)@, current_func@, old(state)@);
            expr_result_view(r) == o.res && *final(index) == o.idx && final(state)@ == o.st
        }),
        final(table)@ == old(table)@,
        *old(index) <= *final(index) < tokens.len(),
        r is Ok ==> *old(index) < *final(index),
        counters_within(old(state)@, final(state)@, *old(index) as int, *final(index) as int),
    decreases tokens.len() - *old(index), 3nat,
{
    proof { reveal_with_fuel(spec_expression, 1); reveal_with_fuel(spec_multiply, 1); reveal_with_fuel(spec_expression_rest, 1); }
    let ghost ts = tokens_view(tokens@);
    let ghost i0 = *index as int;
    let ghost st0 = state@;
    let ghost whole = spec_expression(ts, i0, table@, current_func@, st0);
    let mut expr = match parse_multiply_expression(tokens, index, table, current_func, state) {
        Ok(e) => e,
        Err(e) => return Err(e),
    };
    loop
        invariant
            ts == tokens_view(tokens@),
            well_formed_stream(ts, *index as int),
            i0 < *index,
            i0 == *old(index),
            st0 == old(state)@,
            table@ == old(table)@,
            has_room(st0, tokens@.len(), i0),
            counters_within(st0, state@, i0, *index as int),
            whole == spec_expression(ts, i0, old(table)@, current_func@, old(state)@),
            whole == spec_expression_rest(ts, *index as int, table@, current_func@, state@, expr@),
        decreases tokens.len() - *index,
    {
        proof { reveal_with_fuel(spec_expression_rest, 1); reveal_with_fuel(spec_multiply, 1); }
        let op = match tokens[*index] {
            Token::Plus => "add",
            Token::Subtract => "sub",
            _ => return Ok(expr),
        };
        let ghost i1 = *index as int;
        let ghost st1 = state@;
        *index += 1;
        let right = match parse_multiply_expression(tokens, index, table, current_func, state) {
            Ok(e) => e,
            Err(e) => return Err(e),
        };
        expr = combine(expr, right, op, state);
    }
}

#[verifier::rlimit(40)]
/// Parses a boolean (comparison) expression: `expr <comparison_operator> expr`.
pub fn parse_boolean_expression(
    tokens: &[Token],
    index: &mut usize,
    table: &mut SymbolTable,
    current_func: &str,
    state: &mut CodeGenState,
) -> (r: Result<Expression, String>)
    requires
        well_formed_stream(tokens_view(tokens@), *old(index) as int),
        has_room(old(state)@, tokens@.len(), *old(index) as int),
    ensures
        ({
            let o = spec_boolean(tokens_view(tokens@), *old(index) as int, old(table)@, current_func@, old(state)@);
            expr_result_view(r) == o.res && *final(index) == o.idx && final(state)@ == o.st
        }),
        final(table)@ == old(table)@,
        *old(index) <= *final(index) < tokens.len(),
        r is Ok ==> *old(index) < *final(index),
        counters_within(old(state)@, final(state)@, *old(index) as int, *final(index) as int),
{
    proof { reveal(spec_boolean); reveal_with_fuel(spec_expression, 1); }
    let left = match parse_expression(tokens, index, table, current_func, state) {
        Ok(e) => e,
        Err(e) => return Err(e),
    };
    let op = match tokens[*index] {
        Token::Less => "lt",
        Token::LessEqual => "le",
        Token::Greater => "gt",
        Token::GreaterEqual => "ge",
        Token::Equality => "eq",
        Token::NotEqual => "ne",
        _ => return Err("Expected a comparison operator".to_owned()),
    };
    *index += 1;
    let right = match parse_expression(tokens, index, table, current_func, state) {
        Ok(e) => e,
        Err(e) => return Err(e),
    };
    Ok(combine(left, right, op, state))
}

/// Parses a multiplicative expression: `term ((* | / | %) term)*`.
pub fn parse_multiply_expression(
    tokens: &[Token],
    index: &mut usize,
    table: &mut SymbolTable,
    current_func: &str,
    state: &mut CodeGenState,
) -> (r: Result<Expression, String>)
    requires
        well_formed_stream(tokens_view(tokens@), *old(index) as int),
        has_room(old(state)@, tokens@.len(), *old(index) as int),
    ensures
        ({
            let o = spec_multiply(tokens_view(tokens@), *old(index) as int, old(table)@, current_func@, old(state)@);
            expr_result_view(r) == o.res && *final(index) == o.idx && final(state)@ == o.st
        }),
        final(table)@ == old(table)@,
        *old(index) <= *final(index) < tokens.len(),
        r is Ok ==> *old(index) < *final(index),
        counters_within(old(state)@, final(state)@, *old(index) as int, *final(index) as int),
    decreases tokens.len() - *old(index), 2nat,
{
    proof { reveal_with_fuel(spec_multiply, 1); reveal_with_fuel(spec_term, 1); reveal_with_fuel(spec_multiply_rest, 1); }
    let ghost ts = tokens_view(tokens@);
    let ghost i0 = *index as int;
    let ghost st0 = state@;
    let ghost whole = spec_multiply(ts, i0, table@, current_func@, st0);
    let mut expr = match parse_term(tokens, index, table, current_func, state) {
        Ok(e) => e,
        Err(e) => return Err(e),
    };
    loop
        invariant
            ts == tokens_view(tokens@),
            well_formed_stream(ts, *index as int),
            i0 < *index,
            i0 == *old(index),
            st0 == old(state)@,
            table@ == old(table)@,
            has_room(st0, tokens@.len(), i0),
            counters_within(st0, state@, i0, *index as int),
            whole == spec_multiply(ts, i0, old(table)@, current_func@, old(state)@),
            whole == spec_multiply_rest(ts, *index as int, table@, current_func@, state@, expr@),
        decreases tokens.len() - *index,
    {
        proof { reveal_with_fuel(spec_multiply_rest, 1); reveal_with_fuel(spec_term, 1); }
        let op = match tokens[*index] {
            Token::Multiply => "mult",
            Token::Divide => "div",
            Token::Modulus => "mod",
            _ => return Ok(expr),
        };
        *index += 1;
        let right = match parse_term(tokens, index, table, current_func, state) {
            Ok(e) => e,
            Err(e) => return Err(e),
        };
        expr = combine(expr, right, op, state);
    }
}

/// A term is a function call, a variable reference, an array index, a
/// number literal, or a parenthesised expression.
#[verifier::rlimit(40)]
fn parse_term(
    tokens: &[Token],
    index: &mut usize,
    table: &mut SymbolTable,
    current_func: &str,
    state: &mut CodeGenState,
) -> (r: Result<Expression, String>)
    requires
        well_formed_stream(tokens_view(tokens@), *old(index) as int),
        has_room(old(state)@, tokens@.len(), *old(index) as int),
    ensures
        ({
            let o = spec_term(tokens_view(tokens@), *old(index) as int, old(table)@, current_func@, old(state)@);
            expr_result_view(r) == o.res && *final(index) == o.idx && final(state)@ == o.st
        }),
        final(table)@ == old(table)@,
        *old(index) <= *final(index) < tokens.len(),
        r is Ok ==> *old(index) < *final(index),
        counters_within(old(state)@, final(state)@, *old(index) as int, *final(index) as int),
    decreases tokens.len() - *old(index), 1nat,
{
    proof { reveal_with_fuel(spec_term, 1); reveal_with_fuel(spec_call, 1); reveal_with_fuel(spec_variable, 1); reveal_with_fuel(spec_expression, 1); }
    match &tokens[*index] {
        // variable / identifier
        Token::Ident(ident) => {
            // function call: name(...)
            if matches!(tokens[*index + 1], Token::LeftParen) {
                parse_call(tokens, index, table, current_func, state, ident)
            } else {
                parse_variable(tokens, index, table, current_func, state, ident)
            }
        },
        // number literal
        Token::Num(num) => {
            *index += 1;
            let mut name = String::new();
            push_int(&mut name, *num as i128);
            let r = Expression { code: String::new(), name };
            assert(r@.code =~= seq![]);
            Ok(r)
        },
        // parenthesised expression: (expr)
        Token::LeftParen => {
            *index += 1;
            let expr = match parse_expression(tokens, index, table, current_func, state) {
                Ok(e) => e,
                Err(e) => return Err(e),
            };
            match tokens[*index] {
                Token::RightParen => *index += 1,
                _ => return Err("Missing the right parenthesis ')'".to_owned()),
            }
            Ok(expr)
        },
        _ => Err("Invalid Expression.".to_owned()),
    }
}

/// A call `name(args)`; the token at `index` is the name.
#[verifier::rlimit(40)]
fn parse_call(
    tokens: &[Token],
    index: &mut usize,
    table: &mut SymbolTable,
    current_func: &str,
    state: &mut CodeGenState,
    ident: &String,
) -> (r: Result<Expression, String>)
    requires
        well_formed_stream(tokens_view(tokens@), *old(index) as int),
        has_room(old(state)@, tokens@.len(), *old(index) as int),
        tokens_view(tokens@)[*old(index) as int] == SpecToken::Ident(ident@),
        tokens_view(tokens@)[*old(index) + 1] is LeftParen,
    ensures
        ({
            let o = spec_call(tokens_view(tokens@), *old(index) as int, old(table)@, current_func@, old(state)@, ident@);
            expr_result_view(r) == o.res && *final(index) == o.idx && final(state)@ == o.st
        }),
        final(table)@ == old(table)@,
        *old(index) <= *final(index) < tokens.len(),
        r is Ok ==> *old(index) < *final(index),
        counters_within(old(state)@, final(state)@, *old(index) as int, *final(index) as int),
    decreases tokens.len() - *old(index), 0nat,
{
    proof { reveal_with_fuel(spec_call, 1); reveal_with_fuel(spec_call_args, 1); }
    let ghost ts = tokens_view(tokens@);
    let ghost i0 = *index as int;
    let ghost st0 = state@;
    *index += 1;
    let var_name = ident.clone();
    // SEMANTIC CHECK: calling an undefined function
    if find_function(table, var_name.as_str()).is_none() {
        let mut msg = "Function '".to_owned();
        push_str(&mut msg, var_name.as_str());
        push_str(&mut msg, "' is not defined");
        return Err(msg);
    }
    assert(ts[i0 + 1] is LeftParen);
    assert(i0 + 2 < ts.len());
    *index += 1;

    let mut arg_code = String::new();
    let mut args: Vec<String> = Vec::new();
    let ghost whole = spec_call_args(ts, *index as int, table@, current_func@, state@, seq![], seq![]);
    proof {
        assert(arg_code@ =~= seq![]);
        assert(strings_view(args@) =~= seq![]);
        reveal_with_fuel(spec_call_args, 1);
    }

    // collect arguments
    while !matches!(tokens[*index], Token::RightParen)
        invariant_except_break
            whole == spec_call_args(ts, *index as int, table@, current_func@, state@, arg_code@, strings_view(args@)),
            ts[*index as int] is RightParen ==> whole == (ArgsOutcome {
                res: Ok((arg_code@, strings_view(args@))),
                idx: *index as int,
                st: state@,
            }),
        invariant
            ts == tokens_view(tokens@),
            well_formed_stream(ts, *index as int),
            i0 + 2 <= *index,
            i0 == *old(index),
            st0 == old(state)@,
            table@ == old(table)@,
            whole == spec_call_args(ts, i0 + 2, old(table)@, current_func@, st0, seq![], seq![]),
            0 <= i0 < ts.len(),
            lookup_function(old(table)@, ident@) is Some,
            has_room(st0, tokens@.len(), i0),
            counters_within(st0, state@, i0, *index as int),
        ensures
            whole == (ArgsOutcome { res: Ok((arg_code@, strings_view(args@))), idx: *index as int, st: state@ }),
        decreases tokens.len() - *index,
    {
        proof { reveal_with_fuel(spec_call_args, 1); reveal_with_fuel(spec_expression, 1); reveal_with_fuel(spec_call, 1); }
        let arg = match parse_expression(tokens, index, table, current_func, state) {
            Ok(a) => a,
            Err(e) => return Err(e),
        };
        proof {
            assert(strings_view(args@.push(arg.name)) =~= strings_view(args@).push(arg.name@));
        }
        push_str(&mut arg_code, arg.code.as_str());
        args.push(arg.name);

        // consume ,
        if matches!(tokens[*index], Token::Comma) {
            *index += 1;
        } else {
            break;
        }
    }

    // )
    match tokens[*index] {
        Token::RightParen => *index += 1,
        _ => {
            return Err("Expected ')' after function call".to_owned());
        },
    }

    let dest = create_temp(state);
    let joined = join_strings(&args, ",");
    let mut code = String::new();
    push_str(&mut code, arg_code.as_str());
    push_str(&mut code, "%int ");
    push_str(&mut code, dest.as_str());
    push_str(&mut code, "\n%call ");
    push_str(&mut code, dest.as_str());
    push_str(&mut code, ", ");
    push_str(&mut code, var_name.as_str());
    push_str(&mut code, "(");
    push_str(&mut code, joined.as_str());
    push_str(&mut code, ")\n");
    let r = Expression { code, name: dest };
    assert(r@.code =~= arg_code@ + "%int "@ + dest@ + "\n%call "@ + dest@ + ", "@ + var_name@ + "("@
        + join(strings_view(args@), ","@) + ")\n"@);
    Ok(r)
}

/// A variable `name` or an array element `name[expr]`; the token at
/// `index` is the name.
#[verifier::rlimit(40)]
fn parse_variable(
    tokens: &[Token],
    index: &mut usize,
    table: &mut SymbolTable,
    current_func: &str,
    state: &mut CodeGenState,
    ident: &String,
) -> (r: Result<Expression, String>)
    requires
        well_formed_stream(tokens_view(tokens@), *old(index) as int),
        has_room(old(state)@, tokens@.len(), *old(index) as int),
        tokens_view(tokens@)[*old(index) as int] == SpecToken::Ident(ident@),
    ensures
        ({
            let o = spec_variable(tokens_view(tokens@), *old(index) as int, old(table)@, current_func@, old(state)@, ident@);
            expr_result_view(r) == o.res && *final(index) == o.idx && final(state)@ == o.st
        }),
        final(table)@ == old(table)@,
        *old(index) <= *final(index) < tokens.len(),
        r is Ok ==> *old(index) < *final(index),
        counters_within(old(state)@, final(state)@, *old(index) as int, *final(index) as int),
    decreases tokens.len() - *old(index), 0nat,
{
    proof { reveal_with_fuel(spec_variable, 1); reveal_with_fuel(spec_expression, 1); }
    *index += 1;
    let var_name = ident.clone();
    // SEMANTIC CHECK: using a variable without declaring it
    let func = match find_function(table, current_func) {
        Some(f) => f,
        None => {
            let mut msg = "Current function '".to_owned();
            push_str(&mut msg, current_func);
            push_str(&mut msg, "' not found");
            return Err(msg);
        },
    };
    let var_def = match find_variable(func, var_name.as_str()) {
        Some(v) => v,
        None => {
            let mut msg = "Variable '".to_owned();
            push_str(&mut msg, var_name.as_str());
            push_str(&mut msg, "' used without declaration");
            return Err(msg);
        },
    };
    let is_array = matches!(var_def.kind, VarKind::Array(_));

    // array indexing: name[expr]
    if matches!(tokens[*index], Token::LeftBracket) {
        // SEMANTIC CHECK: scalar used as array
        if !is_array {
            let mut msg = "Variable '".to_owned();
            push_str(&mut msg, var_name.as_str());
            push_str(&mut msg, "' is not an array");
            return Err(msg);
        }
        *index += 1;
        let index_expr = match parse_expression(tokens, index, table, current_func, state) {
            Ok(e) => e,
            Err(e) => return Err(e),
        };
        // ]
        match tokens[*index] {
            Token::RightBracket => *index += 1,
            _ => return Err("Expected ']' after array size".to_owned()),
        }
        let dest = create_temp(state);
        let mut code = String::new();
        push_str(&mut code, index_expr.code.as_str());
        push_str(&mut code, "%int ");
        push_str(&mut code, dest.as_str());
        push_str(&mut code, "\n%mov ");
        push_str(&mut code, dest.as_str());
        push_str(&mut code, ", [");
        push_str(&mut code, var_name.as_str());
        push_str(&mut code, " + ");
        push_str(&mut code, index_expr.name.as_str());
        push_str(&mut code, "]\n");
        let r = Expression { code, name: dest };
        assert(r@.code =~= index_expr.code@ + "%int "@ + dest@ + "\n%mov "@ + dest@ + ", ["@ + var_name@ + " + "@
            + index_expr.name@ + "]\n"@);
        return Ok(r);
    }

    // SEMANTIC CHECK: array used as scalar
    if is_array {
        let mut msg = "Variable '".to_owned();
        push_str(&mut msg, var_name.as_str());
        push_str(&mut msg, "' is an array but used as a scalar");
        return Err(msg);
    }
    let r = Expression { code: String::new(), name: var_name };
    assert(r@.code =~= seq![]);
    Ok(r)
}

} // verus!
