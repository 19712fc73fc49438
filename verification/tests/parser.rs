use compiler_project::lexer::lex;
use compiler_project::lexer::token::Token;
use compiler_project::parser::program::parse_program;

fn compile(code: &str) -> Result<String, String> {
    let tokens = lex(code).unwrap();
    parse_program(&tokens, &mut 0)
}

#[test]
fn parse_simple_program() {
    let code = "
        func main() {
            int a;
            int b;
            a = 1 + 2;
            b = a * 3;
        }
    ";
    let tokens = lex(code).unwrap();
    assert!(parse_program(&tokens, &mut 0).is_ok());
}

#[test]
fn parse_if_and_while() {
    let code = "
        func main() {
            int a;
            a = 5;
            if a > 0 {
                a = a - 1;
            }
        }
    ";
    let tokens = lex(code).unwrap();
    assert!(parse_program(&tokens, &mut 0).is_ok());
}

#[test]
fn parse_rejects_missing_semicolon() {
    let code = "
        func main() {
            int a;
            a = 5
        }
    ";
    let tokens = lex(code).unwrap();
    assert!(parse_program(&tokens, &mut 0).is_err());
}

#[test]
fn parse_rejects_missing_main() {
    let code = "
        func foo() {
            int a;
        }
    ";
    let tokens = lex(code).unwrap();
    assert!(parse_program(&tokens, &mut 0).is_err());
}

#[test]
fn parse_rejects_undeclared_variable() {
    let code = "
        func main() {
            x = 5;
        }
    ";
    let tokens = lex(code).unwrap();
    let result = parse_program(&tokens, &mut 0);
    assert!(result.is_err());
    let msg = result.unwrap_err();
    assert!(
        msg.contains("not declared") || msg.contains("used without declaration"),
        "unexpected error: {}", msg
    );
}

#[test]
fn parse_rejects_break_outside_loop() {
    let code = "
        func main() {
            int a;
            a = 1;
            break;
        }
    ";
    let tokens = lex(code).unwrap();
    let result = parse_program(&tokens, &mut 0);
    assert!(result.is_err());
    assert!(result.unwrap_err().contains("outside of a loop"));
}

#[test]
fn parse_rejects_continue_outside_loop() {
    let code = "
        func main() {
            int a;
            a = 1;
            continue;
        }
    ";
    let tokens = lex(code).unwrap();
    let result = parse_program(&tokens, &mut 0);
    assert!(result.is_err());
    assert!(result.unwrap_err().contains("outside of a loop"));
}

// The generated IR

#[test]
fn ir_of_the_loop_example() {
    let code = "
        func main() {
            int i;
            i = 0;
            while i < 10 {
                print(i);
                i = i + 1;
            }
        }
    ";
    let expected = "%func main()\n%int i\n%mov i, 0\n:loopbegin1\n%int _temp1\n%lt _temp1, i, 10\n\
%branch_ifn _temp1, :endloop1\n%out i\n%int _temp2\n%add _temp2, i, 1\n%mov i, _temp2\n\
%jmp :loopbegin1\n:endloop1\n%endfunc\n";
    assert_eq!(compile(code).unwrap(), expected);
}

#[test]
fn ir_respects_operator_precedence() {
    let code = "func main() { int a; a = 1 + 2 * 3; }";
    let expected = "%func main()\n%int a\n%int _temp1\n%mult _temp1, 2, 3\n%int _temp2\n%add _temp2, 1, _temp1\n\
%mov a, _temp2\n%endfunc\n";
    assert_eq!(compile(code).unwrap(), expected);
    // operators of one level group to the left; parentheses regroup
    let code = "func main() { int a; a = (8 - 4) - 2 % 3 / 1; }";
    let expected = "%func main()\n%int a\n%int _temp1\n%sub _temp1, 8, 4\n%int _temp2\n%mod _temp2, 2, 3\n\
%int _temp3\n%div _temp3, _temp2, 1\n%int _temp4\n%sub _temp4, _temp1, _temp3\n%mov a, _temp4\n%endfunc\n";
    assert_eq!(compile(code).unwrap(), expected);
}

#[test]
fn ir_of_functions_and_calls() {
    let code = "
        func add(int a, int b) {
            return a + b;
        }
        func main() {
            int c;
            c = add(1, 2);
            print(c);
        }
    ";
    let expected = "%func add(%int a, %int b)\n%int _temp1\n%add _temp1, a, b\n%ret _temp1\n%endfunc\n\
%func main()\n%int c\n%int _temp2\n%call _temp2, add(1,2)\n%mov c, _temp2\n%out c\n%endfunc\n";
    assert_eq!(compile(code).unwrap(), expected);
}

#[test]
fn ir_of_arrays() {
    let code = "
        func main() {
            int [4] arr;
            int x;
            arr[1] = 7;
            x = arr[1];
            print(arr[1]);
        }
    ";
    let expected = "%func main()\n%int[] arr, 4\n%int x\n%int _temp1\n%mov _temp1, 1\n%mov [arr + _temp1], 7\n\
%int _temp2\n%mov _temp2, [arr + 1]\n%mov x, _temp2\n%int _temp3\n%mov _temp3, [arr + 1]\n%out _temp3\n%endfunc\n";
    assert_eq!(compile(code).unwrap(), expected);
}

#[test]
fn ir_of_if_else() {
    let code = "
        func main() {
            int a;
            a = 5;
            if a > 0 {
                a = a - 1;
            } else {
                a = 0;
            }
            if a != 4 {
                read a;
            }
        }
    ";
    let expected = "%func main()\n%int a\n%mov a, 5\n%int _temp1\n%gt _temp1, a, 0\n%branch_if _temp1, :iftrue0\n\
%jmp :else0\n:iftrue0\n%int _temp2\n%sub _temp2, a, 1\n%mov a, _temp2\n%jmp :endif0\n:else0\n%mov a, 0\n:endif0\n\
%int _temp3\n%ne _temp3, a, 4\n%branch_if _temp3, :iftrue1\n%jmp :endif1\n:iftrue1\n%input a\n:endif1\n%endfunc\n";
    assert_eq!(compile(code).unwrap(), expected);
}

#[test]
fn ir_of_break_and_continue_in_nested_loops() {
    let code = "
        func main() {
            int i;
            i = 0;
            while i < 3 {
                i = i + 1;
                while i >= 9 {
                    break;
                }
                if i == 2 {
                    continue;
                }
                break;
            }
        }
    ";
    let expected = "%func main()\n%int i\n%mov i, 0\n:loopbegin1\n%int _temp1\n%lt _temp1, i, 3\n\
%branch_ifn _temp1, :endloop1\n%int _temp2\n%add _temp2, i, 1\n%mov i, _temp2\n:loopbegin2\n%int _temp3\n\
%ge _temp3, i, 9\n%branch_ifn _temp3, :endloop2\n%jmp :endloop2\n%jmp :loopbegin2\n:endloop2\n%int _temp4\n\
%eq _temp4, i, 2\n%branch_if _temp4, :iftrue0\n%jmp :endif0\n:iftrue0\n%jmp :loopbegin1\n:endif0\n\
%jmp :endloop1\n%jmp :loopbegin1\n:endloop1\n%endfunc\n";
    assert_eq!(compile(code).unwrap(), expected);
}

#[test]
fn ir_of_declaration_with_initializer_and_call_statement() {
    let code = "
        func f(int n) {
            print(n);
        }
        func main() {
            int a = 2 * 3;
            f(a);
            return a;
        }
    ";
    let expected = "%func f(%int n)\n%out n\n%endfunc\n%func main()\n%int a\n%int _temp1\n%mult _temp1, 2, 3\n\
%mov a, _temp1\n%int _temp2\n%call _temp2, f(a)\n%ret a\n%endfunc\n";
    assert_eq!(compile(code).unwrap(), expected);
}

// The semantic checks and syntax errors, one message each

fn error_of(code: &str) -> String {
    compile(code).err().unwrap()
}

#[test]
fn errors_for_names_defined_twice() {
    assert_eq!(error_of("func main() { int a; int a; }"), "Variable 'a' defined more than once");
    assert_eq!(error_of("func main(int a) { int a; }"), "Variable 'a' defined more than once");
    assert_eq!(error_of("func main(int a, int a) { }"), "Variable 'a' defined more than once");
    assert_eq!(error_of("func f() { } func f() { } func main() { }"), "Function 'f' defined more than once");
}

#[test]
fn errors_for_undeclared_names() {
    assert_eq!(error_of("func main() { int a; a = b + 1; }"), "Variable 'b' used without declaration");
    assert_eq!(error_of("func main() { x = 5; }"), "Variable 'x' not declared in function 'main'");
    assert_eq!(error_of("func main() { int a; a = foo(1); }"), "Function 'foo' is not defined");
    // a function is known only after its definition
    assert_eq!(error_of("func main() { int a; a = f(); } func f() { return 1; }"), "Function 'f' is not defined");
}

#[test]
fn errors_for_array_scalar_mismatch() {
    assert_eq!(error_of("func main() { int [2] a; int b; b = a; }"), "Variable 'a' is an array but used as a scalar");
    assert_eq!(error_of("func main() { int a; int b; b = a[0]; }"), "Variable 'a' is not an array");
    assert_eq!(error_of("func main() { int [2] a; a = 1; }"), "Type mismatch: array variable 'a' used as a scalar");
    assert_eq!(error_of("func main() { int a; a[0] = 1; }"), "Type mismatch: scalar variable 'a' used as an array");
    assert_eq!(error_of("func main() { int [0] a; }"), "Array 'a' must have size > 0");
}

#[test]
fn errors_for_structure() {
    assert_eq!(error_of("func foo() { int a; }"), "No 'main' function defined");
    assert_eq!(error_of("func main() { int a; a = 5 }"), "Missing semicolon.");
    assert_eq!(error_of("main() { }"), "Missing the 'func' keyword.");
    assert_eq!(error_of("func main() { break; }"), "Used 'break' outside of a loop");
    assert_eq!(error_of("func main() { continue; }"), "Used 'continue' outside of a loop");
    assert_eq!(error_of("func main() { int a; a = (1 + 2; }"), "Missing the right parenthesis ')'");
    assert_eq!(error_of("func main() { + }"), "Invalid statement");
    assert_eq!(error_of("func main() { int a; a = ; }"), "Invalid Expression.");
    assert_eq!(error_of("func main() { int a; if a { } }"), "Expected a comparison operator");
    assert_eq!(error_of("func main() { read 5; }"), "Read expects an identifier");
    assert_eq!(error_of("func main() { int a; print(a) }"), "Statements must end with a semicolon");
}

#[test]
fn parse_program_stops_at_end_token() {
    let tokens = lex("func main() { }").unwrap();
    let mut index = 0;
    let r = parse_program(&tokens, &mut index);
    assert_eq!(r.unwrap(), "%func main()\n%endfunc\n");
    assert!(matches!(tokens[index], Token::End));
    assert_eq!(index, tokens.len() - 1);
}

#[test]
fn read_statements() {
    let code = "
        func main() {
            int x;
            read(x);
            read x;
        }
    ";
    assert_eq!(compile(code).unwrap(), "%func main()\n%int x\n%input x\n%input x\n%endfunc\n");
    assert_eq!(error_of("func main() { read(y); }"), "Variable 'y' not declared in function 'main'");
    assert_eq!(error_of("func main() { read y; }"), "Variable 'y' not declared in function 'main'");
    assert_eq!(error_of("func main() { int [3] a; read(a); }"), "Type mismatch: array variable 'a' used as a scalar");
    assert_eq!(error_of("func main() { int x; read(x; }"), "Missing the right parenthesis ')'");
    assert_eq!(error_of("func main() { int x; read(x) }"), "Statement is missing the ';' semicolon");
}

#[test]
fn label_and_temporary_lines_occur_once() {
    let code = "
        func f(int n) {
            while n > 0 {
                if n == 3 { break; } else { n = n - 1; }
                while n > 5 { continue; }
            }
            if n < 0 { return 0; }
            return n;
        }
        func main() {
            int a;
            a = f(4);
            while a < 2 {
                if a == 1 { a = 2; }
                a = a + 1;
            }
        }
    ";
    let ir = compile(code).unwrap();
    let lines: Vec<&str> = ir.lines().collect();
    assert!(ir.ends_with('\n'));
    for l in &lines {
        assert!(l.starts_with('%') || l.starts_with(':'), "unexpected line {}", l);
    }
    let labels: Vec<&&str> = lines.iter().filter(|l| l.starts_with(':')).collect();
    for (a, la) in labels.iter().enumerate() {
        for lb in labels.iter().skip(a + 1) {
            assert_ne!(la, lb);
        }
    }
    assert_eq!(labels.len(), 3 * 2 + 2 * 2 + 3);
    let temps: Vec<&&str> = lines.iter().filter(|l| l.starts_with("%int _temp")).collect();
    for (a, ta) in temps.iter().enumerate() {
        for tb in temps.iter().skip(a + 1) {
            assert_ne!(ta, tb);
        }
    }
    assert!(temps.len() >= 8);
    // every jump names a label line of its own function
    for func in ir.split("%endfunc\n").filter(|f| !f.is_empty()) {
        let flines: Vec<&str> = func.lines().collect();
        for l in &flines {
            let target = if let Some(t) = l.strip_prefix("%jmp ") {
                Some(t)
            } else if l.starts_with("%branch_if") {
                l.split(", ").nth(1)
            } else {
                None
            };
            if let Some(t) = target {
                assert!(flines.contains(&t), "jump to undefined {}", t);
            }
        }
    }
}
