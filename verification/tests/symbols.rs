use compiler_project::lexer::lex;
use compiler_project::lexer::token::Token;
use compiler_project::parser::declaration::parse_declaration_statement;
use compiler_project::parser::expression::{parse_boolean_expression, parse_expression, parse_multiply_expression};
use compiler_project::parser::function::{parse_function, parse_parameter};
use compiler_project::parser::program::{
    add_function, add_local, add_param, find_function, find_function_mut, find_variable, variable_exists,
    CodeGenState, LoopInfo, SymbolTable, VarKind, Variable,
};
use compiler_project::parser::statement::{
    create_temp, parse_break_statement, parse_if_statement, parse_read_statement, parse_statement, parse_while_statement,
};
use compiler_project::text::{join_strings, push_int, push_nat, str_eq};

fn scalar(name: &str) -> Variable {
    Variable { name: name.to_owned(), kind: VarKind::Scalar }
}

fn table_with_main() -> SymbolTable {
    let mut table = SymbolTable { functions: Vec::new() };
    add_function(&mut table, "main".to_owned()).unwrap();
    table
}

#[test]
fn symbol_table_reads_back_what_was_added() {
    let mut table = SymbolTable { functions: Vec::new() };
    assert!(find_function(&table, "f").is_none());
    assert!(add_function(&mut table, "f".to_owned()).is_ok());
    let f = find_function(&table, "f").unwrap();
    assert_eq!(f.name, "f");
    assert!(f.params.is_empty() && f.locals.is_empty());
    assert_eq!(add_function(&mut table, "f".to_owned()).unwrap_err(), "Function 'f' defined more than once");
    assert_eq!(table.functions.len(), 1);

    assert!(add_param(&mut table, "f", scalar("p")).is_ok());
    assert!(add_local(&mut table, "f", Variable { name: "arr".to_owned(), kind: VarKind::Array(3) }).is_ok());
    let f = find_function(&table, "f").unwrap();
    assert!(matches!(find_variable(f, "p").unwrap().kind, VarKind::Scalar));
    assert!(matches!(find_variable(f, "arr").unwrap().kind, VarKind::Array(3)));
    assert!(variable_exists(f, "p"));
    assert!(!variable_exists(f, "q"));
    assert!(find_variable(f, "q").is_none());
}

#[test]
fn symbol_table_refusals() {
    let mut table = table_with_main();
    assert_eq!(add_local(&mut table, "nope", scalar("a")).unwrap_err(), "Function 'nope' not found");
    assert_eq!(add_param(&mut table, "nope", scalar("a")).unwrap_err(), "Function 'nope' not found");
    assert_eq!(
        add_local(&mut table, "main", Variable { name: "z".to_owned(), kind: VarKind::Array(0) }).unwrap_err(),
        "Array 'z' must have size > 0"
    );
    add_param(&mut table, "main", scalar("a")).unwrap();
    assert_eq!(add_local(&mut table, "main", scalar("a")).unwrap_err(), "Variable 'a' defined more than once");
    assert_eq!(add_param(&mut table, "main", scalar("a")).unwrap_err(), "Variable 'a' defined more than once");
    let main = find_function(&table, "main").unwrap();
    assert_eq!(main.params.len(), 1);
    assert_eq!(main.locals.len(), 0);
}

#[test]
fn find_function_mut_edits_in_place() {
    let mut table = table_with_main();
    add_function(&mut table, "g".to_owned()).unwrap();
    {
        let g = find_function_mut(&mut table, "g").unwrap();
        g.locals.push(scalar("x"));
    }
    assert!(variable_exists(find_function(&table, "g").unwrap(), "x"));
    assert!(!variable_exists(find_function(&table, "main").unwrap(), "x"));
    assert!(find_function_mut(&mut table, "h").is_none());
}

#[test]
fn temporaries_are_fresh_and_numbered_from_one() {
    let mut state = CodeGenState::new();
    assert_eq!(state.label_counter, 1);
    assert!(state.loop_stack.is_empty());
    let a = create_temp(&mut state);
    let b = create_temp(&mut state);
    assert_eq!(a, "_temp1");
    assert_eq!(b, "_temp2");
    assert_ne!(a, b);
    assert_eq!(state.temp_counter, 2);
}

#[test]
fn expressions_on_tokens() {
    let tokens = lex("a * 2 + 3 ;").unwrap();
    let mut table = table_with_main();
    add_local(&mut table, "main", scalar("a")).unwrap();
    let mut state = CodeGenState::new();
    let mut index = 0;
    let e = parse_expression(&tokens, &mut index, &mut table, "main", &mut state).ok().unwrap();
    assert_eq!(e.code, "%int _temp1\n%mult _temp1, a, 2\n%int _temp2\n%add _temp2, _temp1, 3\n");
    assert_eq!(e.name, "_temp2");
    assert_eq!(index, 5);

    let mut index = 0;
    let e = parse_multiply_expression(&tokens, &mut index, &mut table, "main", &mut state).ok().unwrap();
    assert_eq!(e.code, "%int _temp3\n%mult _temp3, a, 2\n");
    assert_eq!(index, 3);

    let tokens = lex("a <= -1").unwrap();
    let mut index = 0;
    let r = parse_boolean_expression(&tokens, &mut index, &mut table, "main", &mut state);
    // a leading minus is no term
    assert_eq!(r.err().unwrap(), "Invalid Expression.");

    let tokens = lex("a <= 1 ;").unwrap();
    let mut index = 0;
    let e = parse_boolean_expression(&tokens, &mut index, &mut table, "main", &mut state).ok().unwrap();
    assert_eq!(e.code, "%int _temp4\n%le _temp4, a, 1\n");
    assert_eq!(e.name, "_temp4");
    assert!(matches!(tokens[index], Token::Semicolon));
}

#[test]
fn statements_and_the_loop_stack() {
    let tokens = lex("break; continue;").unwrap();
    let mut table = table_with_main();
    let mut state = CodeGenState::new();
    state.loop_stack.push(LoopInfo { begin: ":b".to_owned(), end: ":e".to_owned() });
    let mut index = 0;
    let r = parse_statement(&tokens, &mut index, &mut table, "main", &mut state);
    assert_eq!(r.unwrap(), "%jmp :e\n");
    let r = parse_statement(&tokens, &mut index, &mut table, "main", &mut state);
    assert_eq!(r.unwrap(), "%jmp :b\n");
    assert!(matches!(tokens[index], Token::End));

    // a loop statement leaves the loop stack as it found it
    let tokens = lex("while 1 < 2 { break; }").unwrap();
    let mut state = CodeGenState::new();
    let mut index = 0;
    let r = parse_statement(&tokens, &mut index, &mut table, "main", &mut state);
    assert!(r.is_ok());
    assert!(state.loop_stack.is_empty());
    assert_eq!(state.label_counter, 2);
}

#[test]
fn declarations_enter_the_table() {
    let tokens = lex("int x; int [5] ys; int x;").unwrap();
    let mut table = table_with_main();
    let mut state = CodeGenState::new();
    let mut index = 0;
    assert_eq!(parse_declaration_statement(&tokens, &mut index, &mut table, "main", &mut state).unwrap(), "%int x\n");
    assert_eq!(
        parse_declaration_statement(&tokens, &mut index, &mut table, "main", &mut state).unwrap(),
        "%int[] ys, 5\n"
    );
    let main = find_function(&table, "main").unwrap();
    assert!(matches!(find_variable(main, "x").unwrap().kind, VarKind::Scalar));
    assert!(matches!(find_variable(main, "ys").unwrap().kind, VarKind::Array(5)));
    assert_eq!(
        parse_declaration_statement(&tokens, &mut index, &mut table, "main", &mut state).unwrap_err(),
        "Variable 'x' defined more than once"
    );
}

#[test]
fn functions_and_parameters() {
    let tokens = lex("int a").unwrap();
    let mut index = 0;
    let (name, code) = parse_parameter(&tokens, &mut index).unwrap();
    assert_eq!(name, "a");
    assert_eq!(code, "%int a");
    assert_eq!(index, 2);
    let tokens = lex("a").unwrap();
    let mut index = 0;
    assert_eq!(parse_parameter(&tokens, &mut index).unwrap_err(), "Parameter must begin with 'int' keyword");

    let tokens = lex("func sq(int n) { return n * n; }").unwrap();
    let mut table = SymbolTable { functions: Vec::new() };
    let mut state = CodeGenState::new();
    let mut index = 0;
    let code = parse_function(&tokens, &mut index, &mut table, &mut state).unwrap();
    assert_eq!(code, "%func sq(%int n)\n%int _temp1\n%mult _temp1, n, n\n%ret _temp1\n%endfunc\n");
    let sq = find_function(&table, "sq").unwrap();
    assert_eq!(sq.params.len(), 1);
    assert_eq!(sq.params[0].name, "n");
}

#[test]
fn text_helpers() {
    let mut s = String::new();
    push_nat(&mut s, 0);
    push_nat(&mut s, 1234);
    push_int(&mut s, -56);
    assert_eq!(s, "01234-56");
    assert!(str_eq("abc", "abc"));
    assert!(!str_eq("abc", "abd"));
    assert!(!str_eq("abc", "ab"));
    let parts = vec!["x".to_owned(), "y".to_owned(), "z".to_owned()];
    assert_eq!(join_strings(&parts, ", "), "x, y, z");
    assert_eq!(join_strings(&Vec::new(), ","), "");
}

#[test]
fn statement_functions_on_tokens() {
    let mut table = table_with_main();
    add_local(&mut table, "main", scalar("x")).unwrap();
    let tokens = lex("read(x);").unwrap();
    let mut index = 0;
    assert_eq!(parse_read_statement(&tokens, &mut index, &table, "main").unwrap(), "%input x\n");
    assert_eq!(index, 5);

    let mut state = CodeGenState::new();
    let tokens = lex("break;").unwrap();
    let mut index = 0;
    assert_eq!(parse_break_statement(&tokens, &mut index, &mut state).unwrap_err(), "Used 'break' outside of a loop");
    assert_eq!(index, 2);
    let mut index = 1;
    assert_eq!(parse_break_statement(&tokens, &mut index, &mut state).unwrap_err(), "Expected 'break'");

    let tokens = lex("while x < 2 { x = x + 1; }").unwrap();
    let mut index = 0;
    let code = parse_while_statement(&tokens, &mut index, &mut table, "main", &mut state).unwrap();
    assert_eq!(code, ":loopbegin1\n%int _temp1\n%lt _temp1, x, 2\n%branch_ifn _temp1, :endloop1\n\
%int _temp2\n%add _temp2, x, 1\n%mov x, _temp2\n%jmp :loopbegin1\n:endloop1\n");
    assert!(state.loop_stack.is_empty());

    let tokens = lex("if x == 1 { } else { }").unwrap();
    let mut index = 0;
    let code = parse_if_statement(&tokens, &mut index, &mut table, "main", &mut state).unwrap();
    assert_eq!(code, "%int _temp3\n%eq _temp3, x, 1\n%branch_if _temp3, :iftrue0\n%jmp :else0\n:iftrue0\n\
%jmp :endif0\n:else0\n:endif0\n");
}
