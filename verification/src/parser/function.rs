//! Function definitions: the header with its parameters, then the body.
use vstd::prelude::*;
use crate::lexer::token::{Token, tokens_view, well_formed_stream};
use crate::text::{push_str, join_strings, strings_view, join};
use crate::parser::program::{add_function, add_param, CodeGenState, SymbolTable, Variable, VarKind, SFunc};
use crate::parser::model::{
    has_room, counters_within, outcome_matches, Outcome, ParamsOutcome, spec_function, spec_params,
    spec_one_param, spec_more_params, spec_parameter, spec_block, spec_statement,
};
use crate::parser::statement::parse_statement;

verus! {

/// The value of a parsed parameter: its name and its IR.
pub open spec fn parameter_result_view(r: Result<(String, String), String>) -> Result<(Seq<char>, Seq<char>), Seq<char>> {
    match r {
        Ok((n, c)) => Ok((n@, c@)),
        Err(e) => Err(e@),
    }
}

/// `func main(int a, int b) { ... }`: the header, then the statements of
/// the body up to the closing brace.
#[verifier::rlimit(80)]
pub fn parse_function(
    tokens: &[Token],
    index: &mut usize,
    table: &mut SymbolTable,
    state: &mut CodeGenState,
) -> (r: Result<String, String>)
    requires
        well_formed_stream(tokens_view(tokens@), *old(index) as int),
        has_room(old(state)@, tokens@.len(), *old(index) as int),
    ensures
        outcome_matches(
            spec_function(tokens_view(tokens@), *old(index) as int, old(table)@, old(state)@),
            r, *final(index), final(table)@, final(state)@),
        *old(index) <= *final(index) < tokens.len(),
        r is Ok ==> *old(index) < *final(index),
        counters_within(old(state)@, final(state)@, *old(index) as int, *final(index) as int),
{
    proof {
        reveal(spec_function);
        reveal(spec_params);
        reveal(spec_one_param);
        reveal_with_fuel(spec_more_params, 1);
        reveal_with_fuel(spec_block, 1);
    }
    let ghost ts = tokens_view(tokens@);
    let ghost i0 = *index as int;
    let ghost st0 = state@;
    let ghost t0 = table@;
    let mut func_code = String::new();
    let mut params: Vec<String> = Vec::new();

    // func
    match tokens[*index] {
        Token::Func => *index += 1,
        _ => return Err("Missing the 'func' keyword.".to_owned()),
    }

    // function name (identifier)
    let func_name = match &tokens[*index] {
        Token::Ident(ident) => {
            *index += 1;
            ident.clone()
        },
        _ => return Err("Functions must have a function identifier".to_owned()),
    };

    match add_function(table, func_name.clone()) {
        Ok(()) => {},
        Err(e) => return Err(e),
    }
    let ghost t1 = table@;

    // (
    match tokens[*index] {
        Token::LeftParen => *index += 1,
        _ => return Err("Missing the left parenthesis '('".to_owned()),
    }

    // parameters: int a, int b, ...
    let ghost p_start = *index as int;
    let ghost whole = spec_params(ts, p_start, t1, func_name@);
    if !matches!(tokens[*index], Token::RightParen) {
        // first param
        let (param_name, param_code) = match parse_parameter(tokens, index) {
            Ok(p) => p,
            Err(e) => return Err(e),
        };
        proof {
            assert(strings_view(params@) =~= seq![]);
            assert(strings_view(params@.push(param_code)) =~= strings_view(params@).push(param_code@));
        }
        params.push(param_code);
        match add_param(table, func_name.as_str(), Variable { name: param_name, kind: VarKind::Scalar }) {
            Ok(()) => {},
            Err(e) => return Err(e),
        }
        assert(whole.res is Err ==> spec_function(ts, i0, t0, st0) == (Outcome {
            res: Err(whole.res->Err_0),
            idx: whole.idx,
            table: whole.table,
            st: st0,
        }));

        // remaining params
        while matches!(tokens[*index], Token::Comma)
            invariant
                ts == tokens_view(tokens@),
                well_formed_stream(ts, *index as int),
                i0 < p_start <= *index,
                i0 == *old(index),
                st0 == old(state)@,
                t0 == old(table)@,
                state@ == st0,
                whole.res is Err ==> spec_function(ts, i0, t0, st0) == (Outcome {
                    res: Err(whole.res->Err_0),
                    idx: whole.idx,
                    table: whole.table,
                    st: st0,
                }),
                whole == spec_more_params(ts, *index as int, table@, func_name@, strings_view(params@)),
                !(ts[*index as int] is Comma) ==> whole == (ParamsOutcome {
                    res: Ok(strings_view(params@)),
                    idx: *index as int,
                    table: table@,
                }),
            decreases tokens.len() - *index,
        {
            proof {
                reveal_with_fuel(spec_more_params, 1);
                reveal(spec_one_param);
            }
            *index += 1;
            let (param_name, param_code) = match parse_parameter(tokens, index) {
                Ok(p) => p,
                Err(e) => return Err(e),
            };
            proof {
                assert(strings_view(params@.push(param_code)) =~= strings_view(params@).push(param_code@));
            }
            params.push(param_code);
            match add_param(table, func_name.as_str(), Variable { name: param_name, kind: VarKind::Scalar }) {
                Ok(()) => {},
                Err(e) => return Err(e),
            }
            proof {
                reveal_with_fuel(spec_more_params, 1);
            }
        }
    } else {
        assert(strings_view(params@) =~= seq![]);
    }
    assert(whole == (ParamsOutcome { res: Ok(strings_view(params@)), idx: *index as int, table: table@ }));

    // )
    match tokens[*index] {
        Token::RightParen => *index += 1,
        _ => return Err("Missing the right parenthesis ')'".to_owned()),
    }

    // generate the IR header
    let joined = join_strings(&params, ", ");
    push_str(&mut func_code, "%func ");
    push_str(&mut func_code, func_name.as_str());
    push_str(&mut func_code, "(");
    push_str(&mut func_code, joined.as_str());
    push_str(&mut func_code, ")\n");
    assert(func_code@ =~= "%func "@ + func_name@ + "("@ + join(strings_view(params@), ", "@) + ")\n"@);

    // {
    match tokens[*index] {
        Token::LeftCurly => *index += 1,
        _ => return Err("Missing the left curly bracket '{'".to_owned()),
    }

    // statements inside the function body
    let ghost fbody = spec_block(ts, *index as int, table@, func_name@, state@, func_code@);
    assert(fbody.res is Err ==> spec_function(ts, i0, t0, st0) == fbody);
    while !matches!(tokens[*index], Token::RightCurly)
        invariant
            ts == tokens_view(tokens@),
            well_formed_stream(ts, *index as int),
            i0 < *index,
            i0 == *old(index),
            st0 == old(state)@,
            t0 == old(table)@,
            has_room(st0, tokens@.len(), i0),
            counters_within(st0, state@, i0, *index as int),
            fbody == spec_block(ts, *index as int, table@, func_name@, state@, func_code@),
            fbody.res is Err ==> spec_function(ts, i0, t0, st0) == fbody,
        decreases tokens.len() - *index,
    {
        proof {
            reveal_with_fuel(spec_block, 1);
            reveal_with_fuel(spec_statement, 1);
        }
        let before = *index;
        let statement_code = match parse_statement(tokens, index, table, func_name.as_str(), state) {
            Ok(c) => c,
            Err(e) => return Err(e),
        };
        push_str(&mut func_code, statement_code.as_str());
        if *index == before {
            return Err("Parser made no progress".to_owned());
        }
    }

    // }
    match tokens[*index] {
        Token::RightCurly => *index += 1,
        _ => return Err("Expected '}'".to_owned()),
    }

    push_str(&mut func_code, "%endfunc\n");
    Ok(func_code)
}

/// Parses a single parameter of the form `int <name>`, giving its name and
/// its IR.
pub fn parse_parameter(tokens: &[Token], index: &mut usize) -> (r: Result<(String, String), String>)
    requires
        well_formed_stream(tokens_view(tokens@), *old(index) as int),
    ensures
        spec_parameter(tokens_view(tokens@), *old(index) as int) == (parameter_result_view(r), *final(index) as int),
        *old(index) <= *final(index) < tokens.len(),
        r is Ok ==> *old(index) < *final(index),
{
    // int
    let param_type = match tokens[*index] {
        Token::Int => {
            *index += 1;
            "int"
        },
        _ => return Err("Parameter must begin with 'int' keyword".to_owned()),
    };
    // identifier
    let param_name = match &tokens[*index] {
        Token::Ident(ident) => {
            *index += 1;
            ident.clone()
        },
        _ => return Err("Parameter must have an identifier".to_owned()),
    };
    let mut param_code = "%".to_owned();
    push_str(&mut param_code, param_type);
    push_str(&mut param_code, " ");
    push_str(&mut param_code, param_name.as_str());
    proof {
        reveal_strlit("%");
        reveal_strlit("int");
        reveal_strlit(" ");
        reveal_strlit("%int ");
        assert(param_code@ =~= "%int "@ + param_name@);
    }
    Ok((param_name, param_code))
}

} // verus!
