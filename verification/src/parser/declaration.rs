//! Declarations of scalars and arrays.
use vstd::prelude::*;
use crate::lexer::token::{Token, tokens_view, well_formed_stream};
use crate::text::{push_str, push_nat};
use crate::parser::program::{add_local, SymbolTable, CodeGenState, Variable, VarKind};
use crate::parser::model::{has_room, counters_within, outcome_matches, spec_declaration, spec_expression};
use crate::parser::expression::parse_expression;

verus! {

/// `int a;`, `int a = expr;` or `int [8] a;`
#[verifier::rlimit(60)]
pub fn parse_declaration_statement(
    tokens: &[Token],
    index: &mut usize,
    table: &mut SymbolTable,
    current_func: &str,
    state: &mut CodeGenState,
) -> (r: Result<String, String>)
    requires
        well_formed_stream(tokens_view(tokens@), *old(index) as int),
        has_room(old(state)@, tokens@.len(), *old(index) as int),
    ensures
        outcome_matches(
            spec_declaration(tokens_view(tokens@), *old(index) as int, old(table)@, current_func@, old(state)@),
            r, *final(index), final(table)@, final(state)@),
        *old(index) <= *final(index) < tokens.len(),
        r is Ok ==> *old(index) < *final(index),
        counters_within(old(state)@, final(state)@, *old(index) as int, *final(index) as int),
{
    proof { reveal(spec_declaration); reveal_with_fuel(spec_expression, 1); }
    // int
    match tokens[*index] {
        Token::Int => *index += 1,
        _ => return Err("Declaration statements must begin with 'int' keyword".to_owned()),
    }

    // optional [size] for array declarations
    let array_size: Option<usize> = if matches!(tokens[*index], Token::LeftBracket) {
        *index += 1;
        // number / array size
        let size = match tokens[*index] {
            Token::Num(num) => {
                *index += 1;
                num as usize
            },
            _ => return Err("Expected number within '[]".to_owned()),
        };
        // ]
        match tokens[*index] {
            Token::RightBracket => *index += 1,
            _ => return Err("Expected ']' after array size".to_owned()),
        }
        Some(size)
    } else {
        None
    };

    // identifier
    let var_name = match &tokens[*index] {
        Token::Ident(ident) => {
            *index += 1;
            ident.clone()
        },
        _ => return Err("Declarations must have an identifier".to_owned()),
    };

    // add to symbol table and generate IR
    let mut ir_code = String::new();
    match array_size {
        // array declaration: int [n] a;
        Some(size) => {
            match add_local(table, current_func, Variable { name: var_name.clone(), kind: VarKind::Array(size) }) {
                Ok(()) => {},
                Err(e) => return Err(e),
            }
            match tokens[*index] {
                Token::Semicolon => *index += 1,
                _ => return Err("Declaration must end with ';'".to_owned()),
            }
            push_str(&mut ir_code, "%int[] ");
            push_str(&mut ir_code, var_name.as_str());
            push_str(&mut ir_code, ", ");
            push_nat(&mut ir_code, size as u128);
            push_str(&mut ir_code, "\n");
        },
        // scalar declaration: int a;  or  int a = expr;
        None => {
            match add_local(table, current_func, Variable { name: var_name.clone(), kind: VarKind::Scalar }) {
                Ok(()) => {},
                Err(e) => return Err(e),
            }
            push_str(&mut ir_code, "%int ");
            push_str(&mut ir_code, var_name.as_str());
            push_str(&mut ir_code, "\n");

            // optional initializer
            if matches!(tokens[*index], Token::Assign) {
                *index += 1;
                let rhs = match parse_expression(tokens, index, table, current_func, state) {
                    Ok(e) => e,
                    Err(e) => return Err(e),
                };
                push_str(&mut ir_code, rhs.code.as_str());
                push_str(&mut ir_code, "%mov ");
                push_str(&mut ir_code, var_name.as_str());
                push_str(&mut ir_code, ", ");
                push_str(&mut ir_code, rhs.name.as_str());
                push_str(&mut ir_code, "\n");
            }

            // ;
            match tokens[*index] {
                Token::Semicolon => *index += 1,
                _ => return Err("Declaration must end with ';'".to_owned()),
            }
        },
    }
    Ok(ir_code)
}

} // verus!

