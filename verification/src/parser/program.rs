//! The symbol table, the code generation state and the program entry point.
use vstd::prelude::*;
use crate::text::{push_str, str_eq};
use crate::lexer::token::{Token, tokens_view, well_formed_stream};
use crate::parser::function::parse_function;
use crate::parser::model::{
    has_room, counters_within, Outcome, spec_program, spec_functions, spec_function, string_result_view,
};

verus! {

/// Whether a variable is a scalar or a fixed-size array (with its size).
#[derive(Clone, Copy)]
pub enum VarKind {
    Scalar,
    Array(usize),
}

pub struct Variable {
    pub name: String,
    pub kind: VarKind,
}

pub struct Function {
    pub name: String,
    pub params: Vec<Variable>,
    pub locals: Vec<Variable>,
}

pub struct SymbolTable {
    pub functions: Vec<Function>,
}

/// The labels of an enclosing loop: `continue` jumps to `begin`, `break` to `end`.
#[derive(Clone)]
pub struct LoopInfo {
    pub begin: String,
    pub end: String,
}

/// The state of code generation: the counters from which fresh loop
/// labels, temporaries and `if` labels are numbered, and the stack of the
/// loops that enclose the current statement.
pub struct CodeGenState {
    pub label_counter: i64,
    pub loop_stack: Vec<LoopInfo>,
    pub temp_counter: usize,
    pub if_counter: usize,
}

/// The value of a variable entry.
pub struct SVar {
    pub name: Seq<char>,
    pub kind: VarKind,
}

/// The value of a function entry.
pub struct SFunc {
    pub name: Seq<char>,
    pub params: Seq<SVar>,
    pub locals: Seq<SVar>,
}

/// The value of a loop entry.
pub struct SLoop {
    pub begin: Seq<char>,
    pub end: Seq<char>,
}

/// The value of a code generation state.
pub struct SState {
    pub label_counter: int,
    pub loop_stack: Seq<SLoop>,
    pub temp_counter: nat,
    pub if_counter: nat,
}

impl View for Variable {
    type V = SVar;

    open spec fn view(&self) -> SVar {
        SVar { name: self.name@, kind: self.kind }
    }
}

pub open spec fn vars_view(vs: Seq<Variable>) -> Seq<SVar> {
    vs.map_values(|v: Variable| v@)
}

impl View for Function {
    type V = SFunc;

    open spec fn view(&self) -> SFunc {
        SFunc { name: self.name@, params: vars_view(self.params@), locals: vars_view(self.locals@) }
    }
}

pub open spec fn funcs_view(fs: Seq<Function>) -> Seq<SFunc> {
    fs.map_values(|f: Function| f@)
}

impl View for SymbolTable {
    type V = Seq<SFunc>;

    open spec fn view(&self) -> Seq<SFunc> {
        funcs_view(self.functions@)
    }
}

impl View for LoopInfo {
    type V = SLoop;

    open spec fn view(&self) -> SLoop {
        SLoop { begin: self.begin@, end: self.end@ }
    }
}

pub open spec fn loops_view(ls: Seq<LoopInfo>) -> Seq<SLoop> {
    ls.map_values(|l: LoopInfo| l@)
}

impl View for CodeGenState {
    type V = SState;

    open spec fn view(&self) -> SState {
        SState {
            label_counter: self.label_counter as int,
            loop_stack: loops_view(self.loop_stack@),
            temp_counter: self.temp_counter as nat,
            if_counter: self.if_counter as nat,
        }
    }
}

impl Clone for Variable {
    fn clone(&self) -> (r: Self)
        ensures
            r@ == self@,
    {
        Variable { name: self.name.clone(), kind: self.kind }
    }
}

fn clone_variables(vs: &Vec<Variable>) -> (r: Vec<Variable>)
    ensures
        vars_view(r@) == vars_view(vs@),
{
    let mut r: Vec<Variable> = Vec::new();
    let mut i: usize = 0;
    while i < vs.len()
        invariant
            i <= vs@.len(),
            vars_view(r@) == vars_view(vs@).take(i as int),
        decreases vs.len() - i,
    {
        let v = vs[i].clone();
        proof {
            assert(v@ == vs@[i as int]@);
            assert(vars_view(r@.push(v)) =~= vars_view(r@).push(v@));
            assert(vars_view(r@.push(v)) =~= vars_view(vs@).take(i + 1));
        }
        r.push(v);
        i += 1;
    }
    assert(vars_view(vs@).take(vs@.len() as int) =~= vars_view(vs@));
    r
}

impl Clone for Function {
    fn clone(&self) -> (r: Self)
        ensures
            r@ == self@,
    {
        Function {
            name: self.name.clone(),
            params: clone_variables(&self.params),
            locals: clone_variables(&self.locals),
        }
    }
}

/// The state a program is compiled from: no temporary and no `if` label
/// made yet (temporaries are numbered from 1, `if` labels from 0), the
/// next loop label numbered 1, and no enclosing loop.
pub open spec fn initial_state() -> SState {
    SState { label_counter: 1, loop_stack: seq![], temp_counter: 0, if_counter: 0 }
}

impl CodeGenState {
    pub fn new() -> (s: Self)
        ensures
            s@ == initial_state(),
    {
        let s = CodeGenState { label_counter: 1, loop_stack: Vec::new(), temp_counter: 0, if_counter: 0 };
        assert(s@.loop_stack =~= seq![]);
        s
    }
}

/* Symbol table lookups */

/// The position of the first function named `name`, searching from `i`.
pub open spec fn function_index_from(fs: Seq<SFunc>, name: Seq<char>, i: int) -> Option<int>
    decreases fs.len() - i,
{
    if i < 0 || i >= fs.len() {
        None
    } else if fs[i].name == name {
        Some(i)
    } else {
        function_index_from(fs, name, i + 1)
    }
}

/// The position of the first function named `name`.
pub open spec fn function_index(fs: Seq<SFunc>, name: Seq<char>) -> Option<int> {
    function_index_from(fs, name, 0)
}

/// The first function named `name`.
pub open spec fn lookup_function(fs: Seq<SFunc>, name: Seq<char>) -> Option<SFunc> {
    match function_index(fs, name) {
        Some(k) => Some(fs[k]),
        None => None,
    }
}

/// The position of the first variable named `name`, searching from `i`.
pub open spec fn var_index_from(vs: Seq<SVar>, name: Seq<char>, i: int) -> Option<int>
    decreases vs.len() - i,
{
    if i < 0 || i >= vs.len() {
        None
    } else if vs[i].name == name {
        Some(i)
    } else {
        var_index_from(vs, name, i + 1)
    }
}

/// The first variable named `name` among the parameters of `f`, else
/// among its locals.
pub open spec fn lookup_variable(f: SFunc, name: Seq<char>) -> Option<SVar> {
    match var_index_from(f.params, name, 0) {
        Some(k) => Some(f.params[k]),
        None => match var_index_from(f.locals, name, 0) {
            Some(k) => Some(f.locals[k]),
            None => None,
        },
    }
}

/// Whether some variable in `vs` is named `name`.
pub open spec fn has_var_named(vs: Seq<SVar>, name: Seq<char>) -> bool {
    exists|k: int| 0 <= k < vs.len() && (#[trigger] vs[k]).name == name
}

pub open spec fn function_ref_view(r: Option<&Function>) -> Option<SFunc> {
    match r {
        Some(f) => Some(f@),
        None => None,
    }
}

pub open spec fn variable_ref_view(r: Option<&Variable>) -> Option<SVar> {
    match r {
        Some(v) => Some(v@),
        None => None,
    }
}

pub open spec fn unit_result_view(r: Result<(), String>) -> Result<(), Seq<char>> {
    match r {
        Ok(()) => Ok(()),
        Err(e) => Err(e@),
    }
}

pub fn find_function<'a>(table: &'a SymbolTable, name: &str) -> (r: Option<&'a Function>)
    ensures
        function_ref_view(r) == lookup_function(table@, name@),
{
    let mut i: usize = 0;
    while i < table.functions.len()
        invariant
            i <= table.functions@.len(),
            function_index(table@, name@) == function_index_from(table@, name@, i as int),
        decreases table.functions.len() - i,
    {
        if str_eq(table.functions[i].name.as_str(), name) {
            return Some(&table.functions[i]);
        }
        i += 1;
    }
    None
}

pub fn find_function_mut<'a>(table: &'a mut SymbolTable, name: &str) -> (r: Option<&'a mut Function>)
    ensures
        match function_index(old(table)@, name@) {
            Some(k) => r is Some && r->0@ == old(table)@[k]
                && final(table)@ == old(table)@.update(k, final(r->0)@),
            None => r is None && final(table)@ == old(table)@,
        },
{
    let mut i: usize = 0;
    while i < table.functions.len()
        invariant
            table@ == old(table)@,
            i <= table.functions@.len(),
            function_index(table@, name@) == function_index_from(table@, name@, i as int),
        decreases table.functions.len() - i,
    {
        if str_eq(table.functions[i].name.as_str(), name) {
            proof { lemma_funcs_view_update(table.functions@, i as int); }
            return Some(&mut table.functions[i]);
        }
        i += 1;
    }
    None
}

pub proof fn lemma_funcs_view_update(fs: Seq<Function>, i: int)
    requires
        0 <= i < fs.len(),
    ensures
        forall|f: Function| #[trigger] funcs_view(fs.update(i, f)) == funcs_view(fs).update(i, f@),
{
    assert forall|f: Function| #[trigger] funcs_view(fs.update(i, f)) == funcs_view(fs).update(i, f@) by {
        assert(funcs_view(fs.update(i, f)) =~= funcs_view(fs).update(i, f@));
    }
}


/// Search the parameters first, then the locals; the first match is found.
pub fn find_variable<'a>(func: &'a Function, name: &str) -> (r: Option<&'a Variable>)
    ensures
        variable_ref_view(r) == lookup_variable(func@, name@),
{
    let ghost f = func@;
    let mut i: usize = 0;
    while i < func.params.len()
        invariant
            f == func@,
            i <= func.params@.len(),
            var_index_from(f.params, name@, 0) == var_index_from(f.params, name@, i as int),
        decreases func.params.len() - i,
    {
        if str_eq(func.params[i].name.as_str(), name) {
            return Some(&func.params[i]);
        }
        i += 1;
    }
    let mut j: usize = 0;
    while j < func.locals.len()
        invariant
            f == func@,
            var_index_from(f.params, name@, 0) is None,
            j <= func.locals@.len(),
            var_index_from(f.locals, name@, 0) == var_index_from(f.locals, name@, j as int),
        decreases func.locals.len() - j,
    {
        if str_eq(func.locals[j].name.as_str(), name) {
            return Some(&func.locals[j]);
        }
        j += 1;
    }
    None
}

/// Whether `func` has a parameter or a local named `name`.
pub fn variable_exists(func: &Function, name: &str) -> (r: bool)
    ensures
        r == (lookup_variable(func@, name@) is Some),
{
    find_variable(func, name).is_some()
}

/* Symbol table insertion */

/// The outcome of adding `name` as a function: refused when a function of
/// that name exists, else appended with no parameters and no locals.
pub open spec fn spec_add_function(fs: Seq<SFunc>, name: Seq<char>) -> (Result<(), Seq<char>>, Seq<SFunc>) {
    if function_index(fs, name) is Some {
        (Err("Function '"@ + name + "' defined more than once"@), fs)
    } else {
        (Ok(()), fs.push(SFunc { name, params: seq![], locals: seq![] }))
    }
}

/// The outcome of adding `var` to `target`, where `other` holds the rest of
/// the function's variables: an array of size 0 and a name already used in
/// `target` or `other` are refused; else `var` is appended to `target`.
pub open spec fn spec_add_variable(target: Seq<SVar>, other: Seq<SVar>, var: SVar) -> (Result<(), Seq<char>>, Seq<SVar>) {
    if var.kind is Array && var.kind->Array_0 == 0 {
        (Err("Array '"@ + var.name + "' must have size > 0"@), target)
    } else if has_var_named(target, var.name) || has_var_named(other, var.name) {
        (Err("Variable '"@ + var.name + "' defined more than once"@), target)
    } else {
        (Ok(()), target.push(var))
    }
}

/// The outcome of adding `var` as a parameter of the function `func_name`.
pub open spec fn spec_add_param(fs: Seq<SFunc>, func_name: Seq<char>, var: SVar) -> (Result<(), Seq<char>>, Seq<SFunc>) {
    match function_index(fs, func_name) {
        None => (Err("Function '"@ + func_name + "' not found"@), fs),
        Some(k) => {
            let (r, params) = spec_add_variable(fs[k].params, fs[k].locals, var);
            (r, fs.update(k, SFunc { params, ..fs[k] }))
        },
    }
}

/// The outcome of adding `var` as a local of the function `func_name`.
pub open spec fn spec_add_local(fs: Seq<SFunc>, func_name: Seq<char>, var: SVar) -> (Result<(), Seq<char>>, Seq<SFunc>) {
    match function_index(fs, func_name) {
        None => (Err("Function '"@ + func_name + "' not found"@), fs),
        Some(k) => {
            let (r, locals) = spec_add_variable(fs[k].locals, fs[k].params, var);
            (r, fs.update(k, SFunc { locals, ..fs[k] }))
        },
    }
}

pub fn add_function(table: &mut SymbolTable, name: String) -> (r: Result<(), String>)
    ensures
        (unit_result_view(r), final(table)@) == spec_add_function(old(table)@, name@),
{
    // SEMANTIC CHECK: function defined more than once
    if find_function(table, name.as_str()).is_some() {
        let mut msg = "Function '".to_owned();
        push_str(&mut msg, name.as_str());
        push_str(&mut msg, "' defined more than once");
        return Err(msg);
    }
    let ghost old_fs = table.functions@;
    let f = Function { name, params: Vec::new(), locals: Vec::new() };
    table.functions.push(f);
    proof {
        assert(f@.params =~= seq![]);
        assert(f@.locals =~= seq![]);
        assert(funcs_view(old_fs.push(f)) =~= funcs_view(old_fs).push(f@));
    }
    Ok(())
}

pub fn add_param(table: &mut SymbolTable, func_name: &str, var: Variable) -> (r: Result<(), String>)
    ensures
        (unit_result_view(r), final(table)@) == spec_add_param(old(table)@, func_name@, var@),
{
    let func = match find_function_mut(table, func_name) {
        Some(f) => f,
        None => {
            let mut msg = "Function '".to_owned();
            push_str(&mut msg, func_name);
            push_str(&mut msg, "' not found");
            return Err(msg);
        },
    };
    add_variable_to(&mut func.params, &mut func.locals, var)
}

pub fn add_local(table: &mut SymbolTable, func_name: &str, var: Variable) -> (r: Result<(), String>)
    ensures
        (unit_result_view(r), final(table)@) == spec_add_local(old(table)@, func_name@, var@),
{
    let func = match find_function_mut(table, func_name) {
        Some(f) => f,
        None => {
            let mut msg = "Function '".to_owned();
            push_str(&mut msg, func_name);
            push_str(&mut msg, "' not found");
            return Err(msg);
        },
    };
    add_variable_to(&mut func.locals, &mut func.params, var)
}

fn add_variable_to(target: &mut Vec<Variable>, other: &mut Vec<Variable>, var: Variable) -> (r: Result<(), String>)
    ensures
        (unit_result_view(r), vars_view(final(target)@)) == spec_add_variable(vars_view(old(target)@), vars_view(old(other)@), var@),
        final(other)@ == old(other)@,
{
    // SEMANTIC CHECK: array size must be > 0
    if let VarKind::Array(size) = var.kind {
        if size == 0 {
            let mut msg = "Array '".to_owned();
            push_str(&mut msg, var.name.as_str());
            push_str(&mut msg, "' must have size > 0");
            return Err(msg);
        }
    }
    // SEMANTIC CHECK: variable defined more than once
    let mut i: usize = 0;
    while i < target.len()
        invariant
            target@ == old(target)@,
            other@ == old(other)@,
            !(var.kind is Array && var.kind->Array_0 == 0),
            i <= target@.len(),
            forall|k: int| 0 <= k < i ==> (#[trigger] vars_view(target@)[k]).name != var.name@,
        decreases target.len() - i,
    {
        if target[i].name == var.name {
            assert(vars_view(target@)[i as int].name == var.name@);
            let mut msg = "Variable '".to_owned();
            push_str(&mut msg, var.name.as_str());
            push_str(&mut msg, "' defined more than once");
            return Err(msg);
        }
        i += 1;
    }
    let mut j: usize = 0;
    while j < other.len()
        invariant
            target@ == old(target)@,
            other@ == old(other)@,
            !(var.kind is Array && var.kind->Array_0 == 0),
            !has_var_named(vars_view(target@), var.name@),
            j <= other@.len(),
            forall|k: int| 0 <= k < j ==> (#[trigger] vars_view(other@)[k]).name != var.name@,
        decreases other.len() - j,
    {
        if other[j].name == var.name {
            assert(vars_view(other@)[j as int].name == var.name@);
            let mut msg = "Variable '".to_owned();
            push_str(&mut msg, var.name.as_str());
            push_str(&mut msg, "' defined more than once");
            return Err(msg);
        }
        j += 1;
    }
    let ghost old_target = target@;
    target.push(var);
    proof {
        assert(vars_view(old_target.push(var)) =~= vars_view(old_target).push(var@));
    }
    Ok(())
}

/* Top-level parse entry point */

/// Parses a complete program (one or more function definitions) and
/// returns the generated IR as a single `String`.
pub fn parse_program(tokens: &Vec<Token>, index: &mut usize) -> (r: Result<String, String>)
    requires
        well_formed_stream(tokens_view(tokens@), *old(index) as int),
        tokens@.len() < i64::MAX,
    ensures
        ({
            let o = spec_program(tokens_view(tokens@), *old(index) as int);
            string_result_view(r) == o.res && *final(index) == o.idx
        }),
        *old(index) <= *final(index) < tokens@.len(),
{
    proof {
        reveal(spec_program);
        reveal_with_fuel(spec_functions, 1);
    }
    let ghost ts = tokens_view(tokens@);
    let ghost i0 = *index as int;
    let n = tokens.len();
    assert(n == tokens@.len());
    let mut code = String::new();
    let mut table = SymbolTable { functions: Vec::new() };
    let mut state = CodeGenState::new();
    assert(table@ =~= seq![]);
    let ghost all = spec_functions(ts, i0, table@, state@, code@);
    assert(code@ =~= seq![]);

    while !at_end(tokens, *index)
        invariant
            ts == tokens_view(tokens@),
            well_formed_stream(ts, *index as int),
            tokens@.len() < i64::MAX,
            i0 <= *index,
            i0 == *old(index),
            has_room(state@, tokens@.len(), *index as int),
            all == spec_functions(ts, *index as int, table@, state@, code@),
            all == spec_functions(ts, i0, seq![], crate::parser::program::initial_state(), seq![]),
        decreases tokens@.len() - *index,
    {
        proof {
            reveal(spec_program);
            reveal_with_fuel(spec_functions, 1);
        }
        let function_code = match parse_function(tokens.as_slice(), index, &mut table, &mut state) {
            Ok(c) => c,
            Err(e) => return Err(e),
        };
        push_str(&mut code, function_code.as_str());
    }

    // SEMANTIC CHECK: a 'main' function must be defined
    if find_function(&table, "main").is_none() {
        return Err("No 'main' function defined".to_owned());
    }
    Ok(code)
}

/// Whether the token at `index` is `End`.
fn at_end(tokens: &Vec<Token>, index: usize) -> (r: bool)
    requires
        index < tokens@.len(),
    ensures
        r == (tokens@[index as int]@ is End),
{
    match tokens[index] {
        Token::End => true,
        _ => false,
    }
}

} // verus!
