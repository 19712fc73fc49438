//! Statements: dispatch on the first token, control flow and assignments.
use vstd::prelude::*;
use crate::lexer::token::{Token, SpecToken, tokens_view, well_formed_stream};
use crate::text::{push_str, push_nat, push_int, nat_decimal, int_decimal};
use crate::parser::program::{
    SFunc, find_function, find_variable, CodeGenState, LoopInfo, SymbolTable, VarKind, loops_view, SLoop, SState,
    lookup_function, lookup_variable,
};
use crate::parser::model::{
    temp_name, next_temp, has_room, counters_within, outcome_matches, string_result_view, Outcome,
    spec_statement, spec_block, spec_while, spec_if, spec_break, spec_continue, spec_return, spec_print,
    spec_read, spec_assignment, spec_target_index, spec_source_index, assignment_code, pop_loop,
    spec_expression,
};
use crate::parser::declaration::parse_declaration_statement;
use crate::parser::expression::{parse_expression, parse_boolean_expression, Expression};

verus! {

/// A fresh temporary name: the temporary counter counts the temporaries
/// made so far, and the new one takes the next number.
pub fn create_temp(state: &mut CodeGenState) -> (r: String)
    requires
        old(state).temp_counter < usize::MAX,
    ensures
        r@ == temp_name(old(state)@.temp_counter),
        final(state)@ == next_temp(old(state)@),
{
    let id = state.temp_counter + 1;
    state.temp_counter = id;
    let mut r = "_temp".to_owned();
    push_nat(&mut r, id as u128);
    r
}

/// Fresh labels for the true branch, the else branch and the end of an
/// `if` statement: the `if` counter counts the `if` statements labelled so
/// far (from 0), and the new labels take its value.
fn create_if_label(state: &mut CodeGenState) -> (r: (String, String, String))
    requires
        old(state).if_counter < usize::MAX,
    ensures
        r.0@ == "iftrue"@ + nat_decimal(old(state)@.if_counter),
        r.1@ == "else"@ + nat_decimal(old(state)@.if_counter),
        r.2@ == "endif"@ + nat_decimal(old(state)@.if_counter),
        final(state)@ == (SState { if_counter: old(state)@.if_counter + 1, ..old(state)@ }),
{
    let id = state.if_counter;
    state.if_counter = id + 1;
    let mut t = "iftrue".to_owned();
    push_nat(&mut t, id as u128);
    let mut e = "else".to_owned();
    push_nat(&mut e, id as u128);
    let mut n = "endif".to_owned();
    push_nat(&mut n, id as u128);
    (t, e, n)
}

/// Parses one statement, such as `int a;`, `a = a + b;`, `print(a);`,
/// `read a;`, a call, a loop or a conditional.
pub fn parse_statement(
    tokens: &[Token],
    index: &mut usize,
    table: &mut SymbolTable,
    current_func: &str,
    state: &mut CodeGenState,
) -> (r: Result<String, String>)
    requires
        well_formed_stream(tokens_view(tokens@), *old(index) as int),
        has_room(old(state)@, tokens@.len(), *old(index) as int),
    ensures
        outcome_matches(
            spec_statement(tokens_view(tokens@), *old(index) as int, old(table)@, current_func@, old(state)@),
            r, *final(index), final(table)@, final(state)@),
        *old(index) <= *final(index) < tokens.len(),
        r is Ok ==> *old(index) < *final(index),
        counters_within(old(state)@, final(state)@, *old(index) as int, *final(index) as int),
    decreases tokens.len() - *old(index), 1nat,
{
    proof { reveal_with_fuel(spec_statement, 1); reveal_with_fuel(spec_while, 1); reveal_with_fuel(spec_if, 1); reveal_with_fuel(spec_expression, 1); }
    match &tokens[*index] {
        Token::Int => parse_declaration_statement(tokens, index, table, current_func, state),
        Token::Return => parse_return_statement(tokens, index, table, current_func, state),
        Token::Print => parse_print_statement(tokens, index, table, current_func, state),
        Token::Read => parse_read_statement(tokens, index, table, current_func),
        Token::If => parse_if_statement(tokens, index, table, current_func, state),
        Token::While => parse_while_statement(tokens, index, table, current_func, state),
        Token::Break => parse_break_statement(tokens, index, state),
        Token::Continue => parse_continue_statement(tokens, index, state),
        Token::Ident(_) => {
            // a call statement when the next token is '('
            if *index + 1 < tokens.len() && matches!(tokens[*index + 1], Token::LeftParen) {
                let expr = match parse_expression(tokens, index, table, current_func, state) {
                    Ok(e) => e,
                    Err(e) => return Err(e),
                };
                match tokens[*index] {
                    Token::Semicolon => {
                        *index += 1;
                        Ok(expr.code)
                    },
                    _ => Err("Function call statement must end with ';'".to_owned()),
                }
            } else {
                parse_assignment_statement(tokens, index, table, current_func, state)
            }
        },
        _ => Err("Invalid statement".to_owned()),
    }
}

/* Control flow */

pub fn parse_break_statement(tokens: &[Token], index: &mut usize, state: &mut CodeGenState) -> (r: Result<String, String>)
    requires
        well_formed_stream(tokens_view(tokens@), *old(index) as int),
    ensures
        forall|table: Seq<SFunc>| outcome_matches(
            #[trigger] spec_break(tokens_view(tokens@), *old(index) as int, table, old(state)@),
            r, *final(index), table, final(state)@),
        *old(index) <= *final(index) < tokens.len(),
        tokens_view(tokens@)[*old(index) as int] is Break ==> *old(index) < *final(index),
        final(state)@ == old(state)@,
{
    proof { reveal(spec_break); }
    // break
    match tokens[*index] {
        Token::Break => *index += 1,
        _ => return Err("Expected 'break'".to_owned()),
    }
    // ;
    match tokens[*index] {
        Token::Semicolon => *index += 1,
        _ => return Err("Break statement must end with a semicolon".to_owned()),
    }
    let n = state.loop_stack.len();
    if n == 0 {
        return Err("Used 'break' outside of a loop".to_owned());
    }
    let mut r = "%jmp ".to_owned();
    push_str(&mut r, state.loop_stack[n - 1].end.as_str());
    push_str(&mut r, "\n");
    Ok(r)
}

pub fn parse_continue_statement(tokens: &[Token], index: &mut usize, state: &mut CodeGenState) -> (r: Result<String, String>)
    requires
        well_formed_stream(tokens_view(tokens@), *old(index) as int),
    ensures
        forall|table: Seq<SFunc>| outcome_matches(
            #[trigger] spec_continue(tokens_view(tokens@), *old(index) as int, table, old(state)@),
            r, *final(index), table, final(state)@),
        *old(index) <= *final(index) < tokens.len(),
        tokens_view(tokens@)[*old(index) as int] is Continue ==> *old(index) < *final(index),
        final(state)@ == old(state)@,
{
    proof { reveal(spec_continue); }
    // continue
    match tokens[*index] {
        Token::Continue => *index += 1,
        _ => return Err("Expected 'continue'".to_owned()),
    }
    // ;
    match tokens[*index] {
        Token::Semicolon => *index += 1,
        _ => return Err("Continue statement must end with a semicolon".to_owned()),
    }
    let n = state.loop_stack.len();
    if n == 0 {
        return Err("Used 'continue' outside of a loop".to_owned());
    }
    let mut r = "%jmp ".to_owned();
    push_str(&mut r, state.loop_stack[n - 1].begin.as_str());
    push_str(&mut r, "\n");
    Ok(r)
}

proof fn lemma_loops_push(ls: Seq<LoopInfo>, l: LoopInfo)
    ensures
        loops_view(ls.push(l)) == loops_view(ls).push(l@),
{
    assert(loops_view(ls.push(l)) =~= loops_view(ls).push(l@));
}

proof fn lemma_loops_pop(ls: Seq<LoopInfo>)
    ensures
        ls.len() > 0 ==> loops_view(ls.drop_last()) == loops_view(ls).drop_last(),
{
    if ls.len() > 0 {
        assert(loops_view(ls.drop_last()) =~= loops_view(ls).drop_last());
    }
}

#[verifier::rlimit(60)]
pub fn parse_while_statement(
    tokens: &[Token],
    index: &mut usize,
    table: &mut SymbolTable,
    current_func: &str,
    state: &mut CodeGenState,
) -> (r: Result<String, String>)
    requires
        well_formed_stream(tokens_view(tokens@), *old(index) as int),
        has_room(old(state)@, tokens@.len(), *old(index) as int),
    ensures
        outcome_matches(
            spec_while(tokens_view(tokens@), *old(index) as int, old(table)@, current_func@, old(state)@),
            r, *final(index), final(table)@, final(state)@),
        *old(index) <= *final(index) < tokens.len(),
        tokens_view(tokens@)[*old(index) as int] is While ==> *old(index) < *final(index),
        counters_within(old(state)@, final(state)@, *old(index) as int, *final(index) as int),
    decreases tokens.len() - *old(index), 0nat,
{
    proof { reveal_with_fuel(spec_while, 1); reveal_with_fuel(spec_block, 1); }
    let ghost ts = tokens_view(tokens@);
    let ghost i0 = *index as int;
    let ghost st0 = state@;
    let ghost t0 = table@;
    // while
    match tokens[*index] {
        Token::While => *index += 1,
        _ => return Err("Expected 'while'".to_owned()),
    }

    // unique loop id for generating labels
    let loop_id = state.label_counter;
    state.label_counter = state.label_counter + 1;

    let mut loop_begin = ":loopbegin".to_owned();
    push_int(&mut loop_begin, loop_id as i128);
    let mut loop_end = ":endloop".to_owned();
    push_int(&mut loop_end, loop_id as i128);

    // push loop info
    let info = LoopInfo { begin: loop_begin.clone(), end: loop_end.clone() };
    proof { lemma_loops_push(state.loop_stack@, info); }
    state.loop_stack.push(info);

    let mut code = String::new();
    push_str(&mut code, loop_begin.as_str());
    push_str(&mut code, "\n");

    let condition = match parse_boolean_expression(tokens, index, table, current_func, state) {
        Ok(c) => c,
        Err(e) => return Err(e),
    };
    push_str(&mut code, condition.code.as_str());
    push_str(&mut code, "%branch_ifn ");
    push_str(&mut code, condition.name.as_str());
    push_str(&mut code, ", ");
    push_str(&mut code, loop_end.as_str());
    push_str(&mut code, "\n");
    assert(code@ =~= loop_begin@ + "\n"@ + condition.code@ + "%branch_ifn "@ + condition.name@ + ", "@ + loop_end@
        + "\n"@);

    // {
    match tokens[*index] {
        Token::LeftCurly => *index += 1,
        _ => return Err("Expected '{' after while condition".to_owned()),
    }

    // statements of the body
    let ghost body = spec_block(ts, *index as int, table@, current_func@, state@, code@);
    while !matches!(tokens[*index], Token::RightCurly)
        invariant
            ts == tokens_view(tokens@),
            well_formed_stream(ts, *index as int),
            i0 < *index,
            i0 == *old(index),
            st0 == old(state)@,
            has_room(st0, tokens@.len(), i0),
            counters_within(st0, state@, i0, *index as int),
            body == spec_block(ts, *index as int, table@, current_func@, state@, code@),
            t0 == old(table)@,
            body.res is Err ==> spec_while(ts, i0, t0, current_func@, st0) == body,
        decreases tokens.len() - *index,
    {
        proof { reveal_with_fuel(spec_block, 1); reveal_with_fuel(spec_statement, 1); }
        let before = *index;
        let c = match parse_statement(tokens, index, table, current_func, state) {
            Ok(c) => c,
            Err(e) => return Err(e),
        };
        push_str(&mut code, c.as_str());
        if *index == before {
            return Err("Parser made no progress".to_owned());
        }
    }

    // }
    match tokens[*index] {
        Token::RightCurly => *index += 1,
        _ => return Err("Expected '}' to close while block".to_owned()),
    }

    push_str(&mut code, "%jmp ");
    push_str(&mut code, loop_begin.as_str());
    push_str(&mut code, "\n");
    push_str(&mut code, loop_end.as_str());
    push_str(&mut code, "\n");

    // pop loop info
    proof { lemma_loops_pop(state.loop_stack@); }
    state.loop_stack.pop();
    Ok(code)
}

#[verifier::rlimit(80)]
pub fn parse_if_statement(
    tokens: &[Token],
    index: &mut usize,
    table: &mut SymbolTable,
    current_func: &str,
    state: &mut CodeGenState,
) -> (r: Result<String, String>)
    requires
        well_formed_stream(tokens_view(tokens@), *old(index) as int),
        has_room(old(state)@, tokens@.len(), *old(index) as int),
    ensures
        outcome_matches(
            spec_if(tokens_view(tokens@), *old(index) as int, old(table)@, current_func@, old(state)@),
            r, *final(index), final(table)@, final(state)@),
        *old(index) <= *final(index) < tokens.len(),
        tokens_view(tokens@)[*old(index) as int] is If ==> *old(index) < *final(index),
        counters_within(old(state)@, final(state)@, *old(index) as int, *final(index) as int),
    decreases tokens.len() - *old(index), 0nat,
{
    proof { reveal_with_fuel(spec_if, 1); reveal_with_fuel(spec_block, 1); }
    let ghost ts = tokens_view(tokens@);
    let ghost i0 = *index as int;
    let ghost st0 = state@;
    let ghost t0 = table@;
    // if
    match tokens[*index] {
        Token::If => *index += 1,
        _ => return Err("Expected 'if' keyword".to_owned()),
    }

    let mut ir_code = String::new();
    let mut if_body = String::new();
    let mut else_body = String::new();

    let condition = match parse_boolean_expression(tokens, index, table, current_func, state) {
        Ok(c) => c,
        Err(e) => return Err(e),
    };
    push_str(&mut ir_code, condition.code.as_str());

    // labels
    let (if_label, else_label, end_if_label) = create_if_label(state);

    // branch to if
    push_str(&mut ir_code, "%branch_if ");
    push_str(&mut ir_code, condition.name.as_str());
    push_str(&mut ir_code, ", :");
    push_str(&mut ir_code, if_label.as_str());
    push_str(&mut ir_code, "\n");
    assert(ir_code@ =~= condition.code@ + "%branch_if "@ + condition.name@ + ", :"@ + if_label@ + "\n"@);

    // {
    match tokens[*index] {
        Token::LeftCurly => *index += 1,
        _ => return Err("Expected '{'".to_owned()),
    }

    // statements of the 'if' body
    let ghost then_block = spec_block(ts, *index as int, table@, current_func@, state@, if_body@);
    let ghost then_start = *index as int;
    assert(if_body@ =~= seq![]);
    while !matches!(tokens[*index], Token::RightCurly)
        invariant
            ts == tokens_view(tokens@),
            well_formed_stream(ts, *index as int),
            i0 < then_start <= *index,
            i0 == *old(index),
            st0 == old(state)@,
            t0 == old(table)@,
            has_room(st0, tokens@.len(), i0),
            counters_within(st0, state@, i0, *index as int),
            then_block == spec_block(ts, *index as int, table@, current_func@, state@, if_body@),
            then_block.res is Err ==> spec_if(ts, i0, t0, current_func@, st0) == then_block,
        decreases tokens.len() - *index,
    {
        proof { reveal_with_fuel(spec_block, 1); reveal_with_fuel(spec_statement, 1); }
        let before = *index;
        let c = match parse_statement(tokens, index, table, current_func, state) {
            Ok(c) => c,
            Err(e) => return Err(e),
        };
        push_str(&mut if_body, c.as_str());
        if *index == before {
            return Err("Parser made no progress".to_owned());
        }
    }

    // }
    match tokens[*index] {
        Token::RightCurly => *index += 1,
        _ => return Err("Expected '}'".to_owned()),
    }

    // (optional) else body
    let has_else = matches!(tokens[*index], Token::Else);
    if has_else {
        push_str(&mut ir_code, "%jmp :");
        push_str(&mut ir_code, else_label.as_str());
        push_str(&mut ir_code, "\n");
        *index += 1;

        // {
        match tokens[*index] {
            Token::LeftCurly => *index += 1,
            _ => return Err("Expected '{'".to_owned()),
        }

        // statements of the 'else' body
        let ghost else_block = spec_block(ts, *index as int, table@, current_func@, state@, else_body@);
        let ghost else_start = *index as int;
        assert(else_body@ =~= seq![]);
        while !matches!(tokens[*index], Token::RightCurly)
            invariant
                ts == tokens_view(tokens@),
                well_formed_stream(ts, *index as int),
                i0 < else_start <= *index,
                i0 == *old(index),
                st0 == old(state)@,
                t0 == old(table)@,
                has_room(st0, tokens@.len(), i0),
                counters_within(st0, state@, i0, *index as int),
                else_block == spec_block(ts, *index as int, table@, current_func@, state@, else_body@),
                else_block.res is Err ==> spec_if(ts, i0, t0, current_func@, st0) == else_block,
            decreases tokens.len() - *index,
        {
            proof { reveal_with_fuel(spec_block, 1); reveal_with_fuel(spec_statement, 1); }
            let before = *index;
            let c = match parse_statement(tokens, index, table, current_func, state) {
                Ok(c) => c,
                Err(e) => return Err(e),
            };
            push_str(&mut else_body, c.as_str());
            if *index == before {
                return Err("Parser made no progress".to_owned());
            }
        }

        // }
        match tokens[*index] {
            Token::RightCurly => *index += 1,
            _ => return Err("Expected '}'".to_owned()),
        }
    }

    // generate the IR
    let ghost head = ir_code@;
    if has_else {
        push_str(&mut ir_code, ":");
        push_str(&mut ir_code, if_label.as_str());
        push_str(&mut ir_code, "\n");
        push_str(&mut ir_code, if_body.as_str());
        push_str(&mut ir_code, "%jmp :");
        push_str(&mut ir_code, end_if_label.as_str());
        push_str(&mut ir_code, "\n");
        push_str(&mut ir_code, ":");
        push_str(&mut ir_code, else_label.as_str());
        push_str(&mut ir_code, "\n");
        push_str(&mut ir_code, else_body.as_str());
    } else {
        push_str(&mut ir_code, "%jmp :");
        push_str(&mut ir_code, end_if_label.as_str());
        push_str(&mut ir_code, "\n");
        push_str(&mut ir_code, ":");
        push_str(&mut ir_code, if_label.as_str());
        push_str(&mut ir_code, "\n");
        push_str(&mut ir_code, if_body.as_str());
    }
    push_str(&mut ir_code, ":");
    push_str(&mut ir_code, end_if_label.as_str());
    push_str(&mut ir_code, "\n");
    proof {
        if has_else {
            assert(ir_code@ =~= head + ":"@ + if_label@ + "\n"@ + if_body@ + "%jmp :"@ + end_if_label@ + "\n"@
                + ":"@ + else_label@ + "\n"@ + else_body@ + ":"@ + end_if_label@ + "\n"@);
        } else {
            assert(ir_code@ =~= head + "%jmp :"@ + end_if_label@ + "\n"@ + ":"@ + if_label@ + "\n"@ + if_body@
                + ":"@ + end_if_label@ + "\n"@);
        }
    }
    Ok(ir_code)
}

/* Simple statements */

pub fn parse_return_statement(
    tokens: &[Token],
    index: &mut usize,
    table: &mut SymbolTable,
    current_func: &str,
    state: &mut CodeGenState,
) -> (r: Result<String, String>)
    requires
        well_formed_stream(tokens_view(tokens@), *old(index) as int),
        has_room(old(state)@, tokens@.len(), *old(index) as int),
    ensures
        outcome_matches(
            spec_return(tokens_view(tokens@), *old(index) as int, old(table)@, current_func@, old(state)@),
            r, *final(index), final(table)@, final(state)@),
        *old(index) <= *final(index) < tokens.len(),
        tokens_view(tokens@)[*old(index) as int] is Return ==> *old(index) < *final(index),
        counters_within(old(state)@, final(state)@, *old(index) as int, *final(index) as int),
{
    proof { reveal(spec_return); reveal_with_fuel(spec_expression, 1); }
    // return
    match tokens[*index] {
        Token::Return => *index += 1,
        _ => return Err("Return statements must begin with a 'return' keyword".to_owned()),
    }
    let expr = match parse_expression(tokens, index, table, current_func, state) {
        Ok(e) => e,
        Err(e) => return Err(e),
    };
    // ;
    match tokens[*index] {
        Token::Semicolon => *index += 1,
        _ => return Err("Statement must end with a semicolon".to_owned()),
    }
    let mut r = String::new();
    push_str(&mut r, expr.code.as_str());
    push_str(&mut r, "%ret ");
    push_str(&mut r, expr.name.as_str());
    push_str(&mut r, "\n");
    assert(r@ =~= expr.code@ + "%ret "@ + expr.name@ + "\n"@);
    Ok(r)
}

pub fn parse_print_statement(
    tokens: &[Token],
    index: &mut usize,
    table: &mut SymbolTable,
    current_func: &str,
    state: &mut CodeGenState,
) -> (r: Result<String, String>)
    requires
        well_formed_stream(tokens_view(tokens@), *old(index) as int),
        has_room(old(state)@, tokens@.len(), *old(index) as int),
    ensures
        outcome_matches(
            spec_print(tokens_view(tokens@), *old(index) as int, old(table)@, current_func@, old(state)@),
            r, *final(index), final(table)@, final(state)@),
        *old(index) <= *final(index) < tokens.len(),
        tokens_view(tokens@)[*old(index) as int] is Print ==> *old(index) < *final(index),
        counters_within(old(state)@, final(state)@, *old(index) as int, *final(index) as int),
{
    proof { reveal(spec_print); reveal_with_fuel(spec_expression, 1); }
    // print
    match tokens[*index] {
        Token::Print => *index += 1,
        _ => return Err("Print statements must begin with 'print' keyword".to_owned()),
    }
    let expr = match parse_expression(tokens, index, table, current_func, state) {
        Ok(e) => e,
        Err(e) => return Err(e),
    };
    // ;
    match tokens[*index] {
        Token::Semicolon => *index += 1,
        _ => return Err("Statements must end with a semicolon".to_owned()),
    }
    let mut r = String::new();
    push_str(&mut r, expr.code.as_str());
    push_str(&mut r, "%out ");
    push_str(&mut r, expr.name.as_str());
    push_str(&mut r, "\n");
    assert(r@ =~= expr.code@ + "%out "@ + expr.name@ + "\n"@);
    Ok(r)
}

/// `read(name);` or `read name;`, where `name` is a scalar of the current
/// function.
pub fn parse_read_statement(tokens: &[Token], index: &mut usize, table: &SymbolTable, current_func: &str) -> (r: Result<String, String>)
    requires
        well_formed_stream(tokens_view(tokens@), *old(index) as int),
    ensures
        forall|st: SState| outcome_matches(
            #[trigger] spec_read(tokens_view(tokens@), *old(index) as int, table@, current_func@, st),
            r, *final(index), table@, st),
        *old(index) <= *final(index) < tokens.len(),
        tokens_view(tokens@)[*old(index) as int] is Read ==> *old(index) < *final(index),
{
    proof { reveal(spec_read); }
    // read
    match tokens[*index] {
        Token::Read => *index += 1,
        _ => return Err("Read statements must begin with a 'read' keyword".to_owned()),
    }
    // an optional (
    let paren = matches!(tokens[*index], Token::LeftParen);
    if paren {
        *index += 1;
    }
    let name = match &tokens[*index] {
        Token::Ident(ident) => {
            *index += 1;
            ident.clone()
        },
        _ => return Err("Read expects an identifier".to_owned()),
    };
    // SEMANTIC CHECK: the variable must be a declared scalar
    let func = match find_function(table, current_func) {
        Some(f) => f,
        None => {
            let mut msg = "Function '".to_owned();
            push_str(&mut msg, current_func);
            push_str(&mut msg, "' not found");
            return Err(msg);
        },
    };
    match find_variable(func, name.as_str()) {
        None => {
            let mut msg = "Variable '".to_owned();
            push_str(&mut msg, name.as_str());
            push_str(&mut msg, "' not declared in function '");
            push_str(&mut msg, current_func);
            push_str(&mut msg, "'");
            return Err(msg);
        },
        Some(v) => {
            if matches!(v.kind, VarKind::Array(_)) {
                let mut msg = "Type mismatch: array variable '".to_owned();
                push_str(&mut msg, name.as_str());
                push_str(&mut msg, "' used as a scalar");
                return Err(msg);
            }
        },
    }
    // )
    if paren {
        match tokens[*index] {
            Token::RightParen => *index += 1,
            _ => return Err("Missing the right parenthesis ')'".to_owned()),
        }
    }
    // ;
    match tokens[*index] {
        Token::Semicolon => *index += 1,
        _ => return Err("Statement is missing the ';' semicolon".to_owned()),
    }
    let mut r = "%input ".to_owned();
    push_str(&mut r, name.as_str());
    push_str(&mut r, "\n");
    Ok(r)
}

/* Assignment */

/// Handles three assignment forms:
/// 1. `dest = src1`     gives `%mov dest, src1`
/// 2. `array[i] = src1` gives `%mov [array + i], src1`
/// 3. `dest = array[i]` gives `%mov dest, [array + i]`
#[verifier::rlimit(100)]
pub fn parse_assignment_statement(
    tokens: &[Token],
    index: &mut usize,
    table: &mut SymbolTable,
    current_func: &str,
    state: &mut CodeGenState,
) -> (r: Result<String, String>)
    requires
        well_formed_stream(tokens_view(tokens@), *old(index) as int),
        has_room(old(state)@, tokens@.len(), *old(index) as int),
    ensures
        outcome_matches(
            spec_assignment(tokens_view(tokens@), *old(index) as int, old(table)@, current_func@, old(state)@),
            r, *final(index), final(table)@, final(state)@),
        *old(index) <= *final(index) < tokens.len(),
        r is Ok ==> *old(index) < *final(index),
        counters_within(old(state)@, final(state)@, *old(index) as int, *final(index) as int),
{
    proof { reveal(spec_assignment); reveal(spec_target_index); reveal(spec_source_index); reveal_with_fuel(spec_expression, 1); }
    let ghost ts = tokens_view(tokens@);
    let ghost i0 = *index as int;
    let ghost st0 = state@;
    // identifier
    let ident = match &tokens[*index] {
        Token::Ident(identifier) => {
            *index += 1;
            identifier.clone()
        },
        _ => return Err("Assignment statements must begin with an identifier".to_owned()),
    };

    // func must be declared
    let func = match find_function(table, current_func) {
        Some(f) => f.clone(),
        None => {
            let mut msg = "Function '".to_owned();
            push_str(&mut msg, current_func);
            push_str(&mut msg, "' not found");
            return Err(msg);
        },
    };

    // lhs must be declared
    let lhs_var = match find_variable(&func, ident.as_str()) {
        Some(v) => v,
        None => {
            let mut msg = "Variable '".to_owned();
            push_str(&mut msg, ident.as_str());
            push_str(&mut msg, "' not declared in function '");
            push_str(&mut msg, current_func);
            push_str(&mut msg, "'");
            return Err(msg);
        },
    };
    let ghost lkind = lhs_var.kind;
    let ghost i1 = *index as int;
    let ghost st1 = state@;

    // array indexing on the lhs: array[expr]
    let lhs_index_expr: Option<Expression> = if matches!(tokens[*index], Token::LeftBracket) {
        // SEMANTIC CHECK: only arrays can be indexed
        if !matches!(lhs_var.kind, VarKind::Array(_)) {
            let mut msg = "Type mismatch: scalar variable '".to_owned();
            push_str(&mut msg, ident.as_str());
            push_str(&mut msg, "' used as an array");
            return Err(msg);
        }
        *index += 1;
        let index_expr = match parse_expression(tokens, index, table, current_func, state) {
            Ok(e) => e,
            Err(e) => return Err(e),
        };
        // ]
        match tokens[*index] {
            Token::RightBracket => *index += 1,
            _ => return Err("Expected ']' after array index".to_owned()),
        }
        Some(index_expr)
    } else {
        // SEMANTIC CHECK: arrays cannot be used as scalars
        if matches!(lhs_var.kind, VarKind::Array(_)) {
            let mut msg = "Type mismatch: array variable '".to_owned();
            push_str(&mut msg, ident.as_str());
            push_str(&mut msg, "' used as a scalar");
            return Err(msg);
        }
        None
    };
    assert(spec_target_index(ts, i1, old(table)@, current_func@, st1, ident@, lkind) == (crate::parser::model::IndexOutcome {
        res: Ok(match lhs_index_expr { Some(e) => Some(e@), None => None }),
        idx: *index as int,
        st: state@,
    }));

    // =
    match tokens[*index] {
        Token::Assign => *index += 1,
        _ => return Err("Missing the '=' operator".to_owned()),
    }

    // right hand side of expression
    let rhs_expr = match parse_expression(tokens, index, table, current_func, state) {
        Ok(e) => e,
        Err(e) => return Err(e),
    };
    let ghost i2 = *index as int;
    let ghost st2 = state@;

    // array indexing on the rhs: base[expr]
    let rhs_index_expr: Option<Expression> = if matches!(tokens[*index], Token::LeftBracket) {
        // if "a = b[i];" rhs_expr.name should be the base variable name
        let rhs_var = match find_variable(&func, rhs_expr.name.as_str()) {
            Some(v) => v,
            None => {
                let mut msg = "Variable '".to_owned();
                push_str(&mut msg, rhs_expr.name.as_str());
                push_str(&mut msg, "' used without being declared");
                return Err(msg);
            },
        };
        // SEMANTIC CHECK: only arrays can be indexed
        if !matches!(rhs_var.kind, VarKind::Array(_)) {
            let mut msg = "Type mismatch: scalar variable '".to_owned();
            push_str(&mut msg, rhs_expr.name.as_str());
            push_str(&mut msg, "' used as an array");
            return Err(msg);
        }
        *index += 1;
        let index_expr = match parse_expression(tokens, index, table, current_func, state) {
            Ok(e) => e,
            Err(e) => return Err(e),
        };
        // ]
        match tokens[*index] {
            Token::RightBracket => *index += 1,
            _ => return Err("Expected ']' after array index".to_owned()),
        }
        Some(index_expr)
    } else {
        // SEMANTIC CHECK: arrays cannot be used as scalars on the rhs either
        if let Some(rhs_var) = find_variable(&func, rhs_expr.name.as_str()) {
            if matches!(rhs_var.kind, VarKind::Array(_)) {
                let mut msg = "Type mismatch: array variable '".to_owned();
                push_str(&mut msg, rhs_expr.name.as_str());
                push_str(&mut msg, "' used as a scalar");
                return Err(msg);
            }
        }
        None
    };
    assert(spec_source_index(ts, i2, old(table)@, current_func@, st2, func@, rhs_expr@) == (crate::parser::model::IndexOutcome {
        res: Ok(match rhs_index_expr { Some(e) => Some(e@), None => None }),
        idx: *index as int,
        st: state@,
    }));

    // ;
    match tokens[*index] {
        Token::Semicolon => *index += 1,
        _ => return Err("Missing semicolon.".to_owned()),
    }

    let mut ir_code = String::new();
    let ghost n = state@.temp_counter;
    // generate code
    match (lhs_index_expr, rhs_index_expr) {
        // array write: array[index] = rhs
        (Some(lhs_idx), None) => {
            push_str(&mut ir_code, lhs_idx.code.as_str());
            push_str(&mut ir_code, rhs_expr.code.as_str());
            let tmp = create_temp(state);
            push_str(&mut ir_code, "%int ");
            push_str(&mut ir_code, tmp.as_str());
            push_str(&mut ir_code, "\n");
            push_str(&mut ir_code, "%mov ");
            push_str(&mut ir_code, tmp.as_str());
            push_str(&mut ir_code, ", ");
            push_str(&mut ir_code, lhs_idx.name.as_str());
            push_str(&mut ir_code, "\n");
            push_str(&mut ir_code, "%mov [");
            push_str(&mut ir_code, ident.as_str());
            push_str(&mut ir_code, " + ");
            push_str(&mut ir_code, tmp.as_str());
            push_str(&mut ir_code, "], ");
            push_str(&mut ir_code, rhs_expr.name.as_str());
            push_str(&mut ir_code, "\n");
            assert(ir_code@ =~= assignment_code(ident@, Some(lhs_idx@), rhs_expr@, None, n));
        },
        // array read: lhs = array[index]
        (None, Some(rhs_idx)) => {
            push_str(&mut ir_code, rhs_expr.code.as_str());
            push_str(&mut ir_code, rhs_idx.code.as_str());
            let tmp = create_temp(state);
            push_str(&mut ir_code, "%int ");
            push_str(&mut ir_code, tmp.as_str());
            push_str(&mut ir_code, "\n");
            push_str(&mut ir_code, "%mov ");
            push_str(&mut ir_code, tmp.as_str());
            push_str(&mut ir_code, ", ");
            push_str(&mut ir_code, rhs_idx.name.as_str());
            push_str(&mut ir_code, "\n");
            push_str(&mut ir_code, "%mov ");
            push_str(&mut ir_code, ident.as_str());
            push_str(&mut ir_code, ", [");
            push_str(&mut ir_code, rhs_expr.name.as_str());
            push_str(&mut ir_code, " + ");
            push_str(&mut ir_code, tmp.as_str());
            push_str(&mut ir_code, "]\n");
            assert(ir_code@ =~= assignment_code(ident@, None, rhs_expr@, Some(rhs_idx@), n));
        },
        // simple scalar assignment
        (None, None) => {
            push_str(&mut ir_code, rhs_expr.code.as_str());
            push_str(&mut ir_code, "%mov ");
            push_str(&mut ir_code, ident.as_str());
            push_str(&mut ir_code, ", ");
            push_str(&mut ir_code, rhs_expr.name.as_str());
            push_str(&mut ir_code, "\n");
            assert(ir_code@ =~= assignment_code(ident@, None, rhs_expr@, None, n));
        },
        // indexing on both sides is not part of the language
        (Some(_), Some(_)) => {
            return Err("Assignments with array indexing on both sides are not supported".to_owned());
        },
    };
    Ok(ir_code)
}

} // verus!
