//! The generated IR read as text: it splits into lines, no label line
//! occurs twice in the IR of a program, no temporary is declared twice,
//! and every jump names a label line of its own function.
use vstd::prelude::*;
use crate::lexer::token::SpecToken;
use crate::text::{int_decimal, nat_decimal, join};
use crate::lexer::scanner::{lex_spec, law_lex_identifiers, ident_well_formed};
use vstd::utf8::valid_utf8;
use crate::parser::program::{SFunc, SState, SLoop, SVar, VarKind, lookup_function, lookup_variable, spec_add_local};
use crate::parser::model::{
    SExpr, remaining, additive_op, multiplicative_op, combine_spec, next_temp, temp_name, spec_expression,
    spec_expression_rest, spec_multiply, spec_multiply_rest, spec_term, spec_call, spec_call_args,
    spec_variable, spec_target_index, spec_source_index, assignment_code, spec_assignment, spec_declaration,
    spec_return, spec_print, spec_read, spec_break, spec_continue, spec_statement, spec_boolean,
    spec_block, spec_while, spec_if, pop_loop, comparison_op, spec_function, spec_functions, spec_program,
    spec_params, spec_one_param, spec_more_params, spec_parameter,
};
use crate::parser::laws::{law_labels_distinct, lemma_expressions_keep_frame, law_statement_keeps_loop_stack};

verus! {

/// The text made of the lines `ls`, each followed by a newline.
pub open spec fn unlines(ls: Seq<Seq<char>>) -> Seq<char>
    decreases ls.len(),
{
    if ls.len() == 0 {
        seq![]
    } else {
        unlines(ls.drop_last()) + ls.last() + seq!['\n']
    }
}

/// `s` holds no newline.
pub open spec fn no_nl(s: Seq<char>) -> bool {
    forall|k: int| 0 <= k < s.len() ==> s[k] != '\n'
}

/// A line of IR that is an instruction: it begins with `%`.
pub open spec fn plain_line(l: Seq<char>) -> bool {
    &&& no_nl(l)
    &&& l.len() > 0
    &&& l[0] == '%'
}

pub open spec fn plain_lines(ls: Seq<Seq<char>>) -> bool {
    forall|k: int| 0 <= k < ls.len() ==> plain_line(#[trigger] ls[k])
}

/// No identifier token holds a newline or begins with `_` (the lexer never
/// makes one that does).
pub open spec fn idents_fit(ts: Seq<SpecToken>) -> bool {
    forall|k: int| 0 <= k < ts.len() ==> ((#[trigger] ts[k]) is Ident ==> no_nl(ts[k]->Ident_0)
        && (ts[k]->Ident_0.len() == 0 || ts[k]->Ident_0[0] != '_'))
}

pub proof fn lemma_unlines_concat(a: Seq<Seq<char>>, b: Seq<Seq<char>>)
    ensures
        unlines(a + b) == unlines(a) + unlines(b),
    decreases b.len(),
{
    if b.len() == 0 {
        assert(a + b =~= a);
        assert(unlines(a) + unlines(b) =~= unlines(a));
    } else {
        assert((a + b).drop_last() =~= a + b.drop_last());
        lemma_unlines_concat(a, b.drop_last());
        assert((a + b).last() == b.last());
        assert(unlines(a + b) == unlines(a + b.drop_last()) + b.last() + seq!['\n']);
        assert(unlines(b) == unlines(b.drop_last()) + b.last() + seq!['\n']);
        assert(unlines(a + b) =~= unlines(a) + unlines(b));
    }
}

proof fn lemma_unlines_one(l: Seq<char>)
    ensures
        unlines(seq![l]) == l + seq!['\n'],
{
    assert(seq![l].drop_last() =~= Seq::<Seq<char>>::empty());
    assert(unlines(Seq::<Seq<char>>::empty()) =~= Seq::<char>::empty());
    assert(unlines(seq![l]) =~= l + seq!['\n']);
}

proof fn lemma_unlines_two(l1: Seq<char>, l2: Seq<char>)
    ensures
        unlines(seq![l1, l2]) == l1 + seq!['\n'] + l2 + seq!['\n'],
{
    assert(seq![l1, l2].drop_last() =~= seq![l1]);
    lemma_unlines_one(l1);
    assert(unlines(seq![l1, l2]) =~= l1 + seq!['\n'] + l2 + seq!['\n']);
}

proof fn lemma_no_nl_add(a: Seq<char>, b: Seq<char>)
    requires
        no_nl(a),
        no_nl(b),
    ensures
        no_nl(a + b),
{
    assert forall|k: int| 0 <= k < (a + b).len() implies (a + b)[k] != '\n' by {
        if k < a.len() {
            assert((a + b)[k] == a[k]);
        } else {
            assert((a + b)[k] == b[k - a.len()]);
        }
    }
}

proof fn lemma_nat_decimal_no_nl(n: nat)
    ensures
        no_nl(nat_decimal(n)),
    decreases n,
{
    if n >= 10 {
        lemma_nat_decimal_no_nl(n / 10);
        lemma_no_nl_add(nat_decimal(n / 10), seq![crate::text::digit_char(n % 10)]);
        assert(nat_decimal(n) =~= nat_decimal(n / 10) + seq![crate::text::digit_char(n % 10)]);
    }
}

proof fn lemma_int_decimal_no_nl(v: int)
    ensures
        no_nl(int_decimal(v)),
{
    if v < 0 {
        lemma_nat_decimal_no_nl((-v) as nat);
        lemma_no_nl_add(seq!['-'], nat_decimal((-v) as nat));
    } else {
        lemma_nat_decimal_no_nl(v as nat);
    }
}

proof fn lemma_temp_name_no_nl(n: nat)
    ensures
        no_nl(temp_name(n)),
{
    reveal_strlit("_temp");
    lemma_nat_decimal_no_nl(n + 1);
    lemma_no_nl_add("_temp"@, nat_decimal(n + 1));
}

proof fn lemma_nat_decimal_no_comma(n: nat)
    ensures
        no_comma(nat_decimal(n)),
    decreases n,
{
    if n >= 10 {
        lemma_nat_decimal_no_comma(n / 10);
        lemma_no_comma_add(nat_decimal(n / 10), seq![crate::text::digit_char(n % 10)]);
        assert(nat_decimal(n) =~= nat_decimal(n / 10) + seq![crate::text::digit_char(n % 10)]);
    }
}

proof fn lemma_temp_name_no_comma(n: nat)
    ensures
        no_comma(temp_name(n)),
{
    reveal_strlit("_temp");
    lemma_nat_decimal_no_comma(n + 1);
    lemma_no_comma_add("_temp"@, nat_decimal(n + 1));
}

/* Temporary declarations */

/// The line that declares the temporary made after `n` others.
pub open spec fn temp_line(n: nat) -> Seq<char> {
    "%int "@ + temp_name(n)
}

/// Every temporary that `ls` declares was made between the counts `t0`
/// (included) and `t1`, and no temporary is declared twice.
pub open spec fn temps_once(ls: Seq<Seq<char>>, t0: nat, t1: nat) -> bool {
    &&& forall|k: int, n: nat| 0 <= k < ls.len() && #[trigger] ls[k] == #[trigger] temp_line(n) ==> t0 <= n < t1
    &&& forall|a: int, b: int, n: nat| #![trigger ls[a], ls[b], temp_line(n)]
        0 <= a < b < ls.len() && ls[a] == temp_line(n) ==> ls[b] != ls[a]
}

proof fn lemma_temp_line_chars(n: nat)
    ensures
        temp_line(n).len() > 5,
        temp_line(n)[0] == '%',
        temp_line(n)[1] == 'i',
        temp_line(n)[3] == 't',
        temp_line(n)[4] == ' ',
        temp_line(n)[5] == '_',
{
    reveal_strlit("%int ");
    reveal_strlit("_temp");
    assert(temp_name(n)[0] == '_');
}

/// A line that differs from `%int _` in one of its first six places
/// declares no temporary.
proof fn lemma_not_temp(l: Seq<char>)
    requires
        l.len() <= 5 || l[0] != '%' || l[1] != 'i' || l[3] != 't' || l[4] != ' ' || l[5] != '_',
    ensures
        forall|n: nat| l != #[trigger] temp_line(n),
{
    assert forall|n: nat| l != #[trigger] temp_line(n) by {
        lemma_temp_line_chars(n);
    }
}

proof fn lemma_temp_line_injective(n: nat, m: nat)
    requires
        temp_line(n) == temp_line(m),
    ensures
        n == m,
{
    if n != m {
        crate::parser::laws::law_temporaries_distinct(n, m);
        lemma_prefix_cancel("%int "@, temp_name(n), temp_name(m));
    }
}

proof fn lemma_temps_empty(t0: nat, t1: nat)
    ensures
        temps_once(Seq::<Seq<char>>::empty(), t0, t1),
{
}

proof fn lemma_temps_concat(a: Seq<Seq<char>>, b: Seq<Seq<char>>, t0: nat, t1: nat, t2: nat)
    requires
        temps_once(a, t0, t1),
        temps_once(b, t1, t2),
        t0 <= t1 <= t2,
    ensures
        temps_once(a + b, t0, t2),
{
    let c = a + b;
    assert forall|k: int, n: nat| 0 <= k < c.len() && #[trigger] c[k] == #[trigger] temp_line(n) implies t0 <= n < t2 by {
        if k < a.len() {
            assert(c[k] == a[k]);
            assert(a[k] == temp_line(n));
            assert(t0 <= n < t1);
        } else {
            assert(c[k] == b[k - a.len()]);
            assert(b[k - a.len()] == temp_line(n));
            assert(t1 <= n < t2);
        }
    }
    assert forall|x: int, y: int, n: nat| #![trigger c[x], c[y], temp_line(n)]
        0 <= x < y < c.len() && c[x] == temp_line(n) implies c[y] != c[x] by {
        if y < a.len() {
            assert(c[x] == a[x] && c[y] == a[y]);
        } else if x >= a.len() {
            assert(c[x] == b[x - a.len()] && c[y] == b[y - a.len()]);
        } else {
            assert(c[x] == a[x] && c[y] == b[y - a.len()]);
            if c[y] == c[x] {
                assert(a[x] == temp_line(n));
                assert(b[y - a.len()] == temp_line(n));
            }
        }
    }
}

/// Appending a line that declares no temporary.
proof fn lemma_temps_push_free(a: Seq<Seq<char>>, l: Seq<char>, t0: nat, t1: nat)
    requires
        temps_once(a, t0, t1),
        forall|n: nat| l != #[trigger] temp_line(n),
    ensures
        temps_once(a.push(l), t0, t1),
{
    let c = a.push(l);
    assert forall|k: int, n: nat| 0 <= k < c.len() && #[trigger] c[k] == #[trigger] temp_line(n) implies t0 <= n < t1 by {
        if k < a.len() {
            assert(c[k] == a[k]);
            assert(a[k] == temp_line(n));
        }
    }
    assert forall|x: int, y: int, n: nat| #![trigger c[x], c[y], temp_line(n)]
        0 <= x < y < c.len() && c[x] == temp_line(n) implies c[y] != c[x] by {
        assert(c[x] == a[x]);
        if y < a.len() {
            assert(c[y] == a[y]);
        }
    }
}

/// Appending the declaration of the temporary numbered `m`, made after
/// those of `a`.
proof fn lemma_temps_push_temp(a: Seq<Seq<char>>, m: nat, t0: nat)
    requires
        temps_once(a, t0, m),
        t0 <= m,
    ensures
        temps_once(a.push(temp_line(m)), t0, m + 1),
{
    let c = a.push(temp_line(m));
    assert forall|k: int, n: nat| 0 <= k < c.len() && #[trigger] c[k] == #[trigger] temp_line(n) implies t0 <= n < m + 1 by {
        if k < a.len() {
            assert(c[k] == a[k]);
            assert(a[k] == temp_line(n));
        } else {
            assert(c[k] == temp_line(m));
            lemma_temp_line_injective(n, m);
        }
    }
    assert forall|x: int, y: int, n: nat| #![trigger c[x], c[y], temp_line(n)]
        0 <= x < y < c.len() && c[x] == temp_line(n) implies c[y] != c[x] by {
        assert(c[x] == a[x]);
        if y < a.len() {
            assert(c[y] == a[y]);
        } else if c[y] == c[x] {
            lemma_temp_line_injective(n, m);
        }
    }
}

/* Jumps */

/// `s` holds no comma.
pub open spec fn no_comma(s: Seq<char>) -> bool {
    forall|k: int| 0 <= k < s.len() ==> s[k] != ','
}

/// `l` is a jump line to the label line `x`: `%jmp x`, or a conditional
/// branch `%branch_if t, x` or `%branch_ifn t, x` on a value `t` without
/// comma.
pub open spec fn jump_to(l: Seq<char>, x: Seq<char>) -> bool {
    ||| l == "%jmp "@ + x
    ||| exists|t: Seq<char>| no_comma(t) && (l == "%branch_if "@ + t + ", "@ + x || l == "%branch_ifn "@ + t + ", "@ + x)
}

/// `l` is no jump line.
pub open spec fn no_jump(l: Seq<char>) -> bool {
    forall|x: Seq<char>| !#[trigger] jump_to(l, x)
}

pub open spec fn no_jumps(ls: Seq<Seq<char>>) -> bool {
    forall|k: int| 0 <= k < ls.len() ==> no_jump(#[trigger] ls[k])
}

proof fn lemma_jump_chars()
    ensures
        "%jmp "@.len() == 5, "%jmp "@[0] == '%', "%jmp "@[1] == 'j',
        "%branch_if "@.len() == 11, "%branch_if "@[0] == '%', "%branch_if "@[1] == 'b', no_comma("%branch_if "@),
        "%branch_ifn "@.len() == 12, "%branch_ifn "@[0] == '%', "%branch_ifn "@[1] == 'b', no_comma("%branch_ifn "@),
        ", "@ == seq![',', ' '],
        ", :"@ == ", "@ + ":"@,
        "%jmp :"@ == "%jmp "@ + ":"@,
{
    reveal_strlit("%jmp ");
    reveal_strlit("%branch_if ");
    reveal_strlit("%branch_ifn ");
    reveal_strlit(", ");
    reveal_strlit(", :");
    reveal_strlit(":");
    reveal_strlit("%jmp :");
    assert(", :"@ =~= ", "@ + ":"@);
    assert("%jmp :"@ =~= "%jmp "@ + ":"@);
}

/// A line whose second character is neither `j` nor `b`, or whose first is
/// not `%`, is no jump line.
proof fn lemma_no_jump(l: Seq<char>)
    requires
        l.len() < 2 || l[0] != '%' || (l[1] != 'j' && l[1] != 'b'),
    ensures
        no_jump(l),
{
    lemma_jump_chars();
    assert forall|x: Seq<char>| !#[trigger] jump_to(l, x) by {
        if l == "%jmp "@ + x {
            assert(l[0] == '%' && l[1] == 'j');
        }
        if exists|t: Seq<char>| no_comma(t) && (l == "%branch_if "@ + t + ", "@ + x || l == "%branch_ifn "@ + t + ", "@ + x) {
            let t = choose|t: Seq<char>| no_comma(t) && (l == "%branch_if "@ + t + ", "@ + x || l == "%branch_ifn "@ + t + ", "@ + x);
            if l == "%branch_if "@ + t + ", "@ + x {
                assert(l[0] == '%' && l[1] == 'b');
            } else {
                assert(l[0] == '%' && l[1] == 'b');
            }
        }
    }
}

proof fn lemma_no_comma_add(a: Seq<char>, b: Seq<char>)
    requires
        no_comma(a),
        no_comma(b),
    ensures
        no_comma(a + b),
{
    assert forall|k: int| 0 <= k < (a + b).len() implies (a + b)[k] != ',' by {
        if k < a.len() {
            assert((a + b)[k] == a[k]);
        } else {
            assert((a + b)[k] == b[k - a.len()]);
        }
    }
}

/// Splitting at the first comma: `a, x` and `b, y` with `a` and `b`
/// without comma are equal only when `a == b` and `x == y`.
proof fn lemma_comma_split(a: Seq<char>, x: Seq<char>, b: Seq<char>, y: Seq<char>)
    requires
        no_comma(a),
        no_comma(b),
        a + ", "@ + x == b + ", "@ + y,
    ensures
        x == y,
{
    lemma_jump_chars();
    let l = a + ", "@ + x;
    if a.len() < b.len() {
        assert(l[a.len() as int] == ',');
        assert((b + ", "@ + y)[a.len() as int] == b[a.len() as int]);
    } else if b.len() < a.len() {
        assert((b + ", "@ + y)[b.len() as int] == ',');
        assert(l[b.len() as int] == a[b.len() as int]);
    } else {
        assert(a =~= l.subrange(0, a.len() as int));
        assert(b =~= l.subrange(0, b.len() as int));
        assert(l.subrange(a.len() + 2int, l.len() as int) =~= x);
        assert((b + ", "@ + y).subrange(b.len() + 2int, l.len() as int) =~= y);
    }
}

/// The one label line that the jump line `%jmp x0` names is `x0`.
proof fn lemma_jmp_target(x0: Seq<char>)
    ensures
        jump_to("%jmp "@ + x0, x0),
        forall|x: Seq<char>| #[trigger] jump_to("%jmp "@ + x0, x) ==> x == x0,
{
    lemma_jump_chars();
    let l = "%jmp "@ + x0;
    assert forall|x: Seq<char>| #[trigger] jump_to(l, x) implies x == x0 by {
        if l == "%jmp "@ + x {
            crate::parser::ir_text::lemma_prefix_cancel("%jmp "@, x, x0);
        } else {
            let t = choose|t: Seq<char>| no_comma(t) && (l == "%branch_if "@ + t + ", "@ + x || l == "%branch_ifn "@ + t + ", "@ + x);
            assert(l[1] == 'j');
            if l == "%branch_if "@ + t + ", "@ + x {
                assert(l[1] == 'b');
            } else {
                assert(l[1] == 'b');
            }
        }
    }
}

/// The one label line that the branch line `p t0, x0` names is `x0`.
proof fn lemma_branch_target(p: Seq<char>, t0: Seq<char>, x0: Seq<char>)
    requires
        p == "%branch_if "@ || p == "%branch_ifn "@,
        no_comma(t0),
    ensures
        jump_to(p + t0 + ", "@ + x0, x0),
        forall|x: Seq<char>| #[trigger] jump_to(p + t0 + ", "@ + x0, x) ==> x == x0,
{
    lemma_jump_chars();
    let l = p + t0 + ", "@ + x0;
    assert(no_comma(t0) && (l == "%branch_if "@ + t0 + ", "@ + x0 || l == "%branch_ifn "@ + t0 + ", "@ + x0));
    assert forall|x: Seq<char>| #[trigger] jump_to(l, x) implies x == x0 by {
        if l == "%jmp "@ + x {
            assert(l[1] == 'j');
            assert(l[1] == p[1]);
        } else {
            let t = choose|t: Seq<char>| no_comma(t) && (l == "%branch_if "@ + t + ", "@ + x || l == "%branch_ifn "@ + t + ", "@ + x);
            lemma_no_comma_add(p, t0);
            if l == "%branch_if "@ + t + ", "@ + x {
                lemma_no_comma_add("%branch_if "@, t);
                assert(l == ("%branch_if "@ + t) + ", "@ + x);
                assert(l == (p + t0) + ", "@ + x0);
                lemma_comma_split("%branch_if "@ + t, x, p + t0, x0);
            } else {
                lemma_no_comma_add("%branch_ifn "@, t);
                assert(l == ("%branch_ifn "@ + t) + ", "@ + x);
                assert(l == (p + t0) + ", "@ + x0);
                lemma_comma_split("%branch_ifn "@ + t, x, p + t0, x0);
            }
        }
    }
}

proof fn lemma_no_jumps_concat(a: Seq<Seq<char>>, b: Seq<Seq<char>>)
    requires
        no_jumps(a),
        no_jumps(b),
    ensures
        no_jumps(a + b),
{
    assert forall|k: int| 0 <= k < (a + b).len() implies no_jump(#[trigger] (a + b)[k]) by {
        if k < a.len() {
            assert((a + b)[k] == a[k]);
        } else {
            assert((a + b)[k] == b[k - a.len()]);
        }
    }
}

proof fn lemma_no_jumps_push(a: Seq<Seq<char>>, l: Seq<char>)
    requires
        no_jumps(a),
        no_jump(l),
    ensures
        no_jumps(a.push(l)),
{
    assert forall|k: int| 0 <= k < a.push(l).len() implies no_jump(#[trigger] a.push(l)[k]) by {
        if k < a.len() {
            assert(a.push(l)[k] == a[k]);
        }
    }
}

/// `x` is the start or the end label of a loop on `stack`.
pub open spec fn in_stack(x: Seq<char>, stack: Seq<SLoop>) -> bool {
    exists|m: int| 0 <= m < stack.len() && ((#[trigger] stack[m]).begin == x || stack[m].end == x)
}

/// Every jump line of `ls` names a line of `pool` or a label of a loop on
/// `stack`.
pub open spec fn jumps_into(ls: Seq<Seq<char>>, pool: Seq<Seq<char>>, stack: Seq<SLoop>) -> bool {
    forall|k: int, x: Seq<char>| 0 <= k < ls.len() && #[trigger] jump_to(ls[k], x) ==> pool.contains(x) || in_stack(x, stack)
}

proof fn lemma_jumps_none(ls: Seq<Seq<char>>, pool: Seq<Seq<char>>, stack: Seq<SLoop>)
    requires
        no_jumps(ls),
    ensures
        jumps_into(ls, pool, stack),
{
    assert forall|k: int, x: Seq<char>| 0 <= k < ls.len() && #[trigger] jump_to(ls[k], x) implies pool.contains(x) || in_stack(x, stack) by {
        assert(no_jump(ls[k]));
    }
}

/// Every line of `a` is a line of `b`.
pub open spec fn lines_within(a: Seq<Seq<char>>, b: Seq<Seq<char>>) -> bool {
    forall|x: Seq<char>| #[trigger] a.contains(x) ==> b.contains(x)
}

proof fn lemma_within_concat(a: Seq<Seq<char>>, b: Seq<Seq<char>>)
    ensures
        lines_within(a, a + b),
        lines_within(b, a + b),
{
    assert forall|x: Seq<char>| #[trigger] a.contains(x) implies (a + b).contains(x) by {
        let k = choose|k: int| 0 <= k < a.len() && a[k] == x;
        assert((a + b)[k] == x);
    }
    assert forall|x: Seq<char>| #[trigger] b.contains(x) implies (a + b).contains(x) by {
        let k = choose|k: int| 0 <= k < b.len() && b[k] == x;
        assert((a + b)[k + a.len()] == x);
    }
}

proof fn lemma_within_push(a: Seq<Seq<char>>, l: Seq<char>)
    ensures
        lines_within(a, a.push(l)),
        a.push(l).contains(l),
{
    assert forall|x: Seq<char>| #[trigger] a.contains(x) implies a.push(l).contains(x) by {
        let k = choose|k: int| 0 <= k < a.len() && a[k] == x;
        assert(a.push(l)[k] == x);
    }
    assert(a.push(l)[a.len() as int] == l);
}

proof fn lemma_within_trans(a: Seq<Seq<char>>, b: Seq<Seq<char>>, c: Seq<Seq<char>>)
    requires
        lines_within(a, b),
        lines_within(b, c),
    ensures
        lines_within(a, c),
{
}

proof fn lemma_jumps_widen(ls: Seq<Seq<char>>, p1: Seq<Seq<char>>, p2: Seq<Seq<char>>, stack: Seq<SLoop>)
    requires
        jumps_into(ls, p1, stack),
        lines_within(p1, p2),
    ensures
        jumps_into(ls, p2, stack),
{
    assert forall|k: int, x: Seq<char>| 0 <= k < ls.len() && #[trigger] jump_to(ls[k], x) implies p2.contains(x) || in_stack(x, stack) by {
        if p1.contains(x) {
            assert(p2.contains(x));
        }
    }
}

/// Jumps to the labels of the innermost loop `lp`, when `pool` holds
/// both of its label lines.
proof fn lemma_jumps_pop(ls: Seq<Seq<char>>, pool: Seq<Seq<char>>, stack: Seq<SLoop>, lp: SLoop)
    requires
        jumps_into(ls, pool, stack.push(lp)),
        pool.contains(lp.begin),
        pool.contains(lp.end),
    ensures
        jumps_into(ls, pool, stack),
{
    assert forall|k: int, x: Seq<char>| 0 <= k < ls.len() && #[trigger] jump_to(ls[k], x) implies pool.contains(x) || in_stack(x, stack) by {
        if !pool.contains(x) {
            let m = choose|m: int| 0 <= m < stack.push(lp).len() && ((#[trigger] stack.push(lp)[m]).begin == x || stack.push(lp)[m].end == x);
            if m < stack.len() {
                assert(stack.push(lp)[m] == stack[m]);
            } else {
                assert(stack.push(lp)[m] == lp);
            }
        }
    }
}

proof fn lemma_jumps_concat(a: Seq<Seq<char>>, b: Seq<Seq<char>>, pool: Seq<Seq<char>>, stack: Seq<SLoop>)
    requires
        jumps_into(a, pool, stack),
        jumps_into(b, pool, stack),
    ensures
        jumps_into(a + b, pool, stack),
{
    assert forall|k: int, x: Seq<char>| 0 <= k < (a + b).len() && #[trigger] jump_to((a + b)[k], x) implies pool.contains(x) || in_stack(x, stack) by {
        if k < a.len() {
            assert((a + b)[k] == a[k]);
        } else {
            assert((a + b)[k] == b[k - a.len()]);
        }
    }
}

proof fn lemma_jumps_push(a: Seq<Seq<char>>, l: Seq<char>, pool: Seq<Seq<char>>, stack: Seq<SLoop>)
    requires
        jumps_into(a, pool, stack),
        forall|x: Seq<char>| #[trigger] jump_to(l, x) ==> pool.contains(x) || in_stack(x, stack),
    ensures
        jumps_into(a.push(l), pool, stack),
{
    assert forall|k: int, x: Seq<char>| 0 <= k < a.push(l).len() && #[trigger] jump_to(a.push(l)[k], x) implies pool.contains(x) || in_stack(x, stack) by {
        if k < a.len() {
            assert(a.push(l)[k] == a[k]);
        }
    }
}

/* The IR of expressions */

/// The IR of an evaluated expression is made of instruction lines, and the
/// name that holds its value has no newline.
pub open spec fn expr_lines(x: SExpr, ls: Seq<Seq<char>>) -> bool {
    &&& x.code == unlines(ls)
    &&& plain_lines(ls)
    &&& no_nl(x.name)
    &&& no_jumps(ls)
}

proof fn lemma_plain_concat(a: Seq<Seq<char>>, b: Seq<Seq<char>>)
    requires
        plain_lines(a),
        plain_lines(b),
    ensures
        plain_lines(a + b),
{
    assert forall|k: int| 0 <= k < (a + b).len() implies plain_line(#[trigger] (a + b)[k]) by {
        if k < a.len() {
            assert((a + b)[k] == a[k]);
        } else {
            assert((a + b)[k] == b[k - a.len()]);
        }
    }
}

/// A line `prefix + rest` where `prefix` starts with `%` and neither part
/// holds a newline is an instruction line.
proof fn lemma_plain_line(prefix: Seq<char>, rest: Seq<char>)
    requires
        no_nl(prefix),
        no_nl(rest),
        prefix.len() > 0,
        prefix[0] == '%',
    ensures
        plain_line(prefix + rest),
{
    lemma_no_nl_add(prefix, rest);
    assert((prefix + rest)[0] == prefix[0]);
}

proof fn lemma_lit_facts()
    ensures
        no_nl("%int "@), "%int "@.len() > 0, "%int "@[0] == '%',
        no_nl("%"@), "%"@.len() > 0, "%"@[0] == '%',
        no_nl("%call "@), "%call "@.len() > 0, "%call "@[0] == '%',
        no_nl("%mov "@), "%mov "@.len() > 0, "%mov "@[0] == '%',
        no_nl(" "@), no_nl(", "@), no_nl(", ["@), no_nl(" + "@), no_nl("]"@), no_nl("("@), no_nl(")"@),
        no_nl(","@),
        "\n%"@ == seq!['\n'] + "%"@,
        "\n%call "@ == seq!['\n'] + "%call "@,
        "\n%mov "@ == seq!['\n'] + "%mov "@,
        "\n"@ == seq!['\n'],
        ")\n"@ == ")"@ + seq!['\n'],
        "]\n"@ == "]"@ + seq!['\n'],
        no_nl("add"@), no_nl("sub"@), no_nl("mult"@), no_nl("div"@), no_nl("mod"@),
        no_nl("lt"@), no_nl("le"@), no_nl("gt"@), no_nl("ge"@), no_nl("eq"@), no_nl("ne"@),
        "%"@ == seq!['%'],
        "%call "@.len() > 5, "%call "@[1] == 'c',
        "%mov "@.len() > 4, "%mov "@[1] == 'm',
        "add"@.len() > 0 && "add"@[0] != 'i' && "add"@[0] != 'j' && "add"@[0] != 'b', "sub"@.len() > 0 && "sub"@[0] != 'i' && "sub"@[0] != 'j' && "sub"@[0] != 'b',
        "mult"@.len() > 0 && "mult"@[0] != 'i' && "mult"@[0] != 'j' && "mult"@[0] != 'b', "div"@.len() > 0 && "div"@[0] != 'i' && "div"@[0] != 'j' && "div"@[0] != 'b',
        "mod"@.len() > 0 && "mod"@[0] != 'i' && "mod"@[0] != 'j' && "mod"@[0] != 'b', "lt"@.len() > 0 && "lt"@[0] != 'i' && "lt"@[0] != 'j' && "lt"@[0] != 'b',
        "le"@.len() > 0 && "le"@[0] != 'i' && "le"@[0] != 'j' && "le"@[0] != 'b', "gt"@.len() > 0 && "gt"@[0] != 'i' && "gt"@[0] != 'j' && "gt"@[0] != 'b',
        "ge"@.len() > 0 && "ge"@[0] != 'i' && "ge"@[0] != 'j' && "ge"@[0] != 'b', "eq"@.len() > 0 && "eq"@[0] != 'i' && "eq"@[0] != 'j' && "eq"@[0] != 'b',
        "ne"@.len() > 0 && "ne"@[0] != 'i' && "ne"@[0] != 'j' && "ne"@[0] != 'b',
{
    reveal_strlit("%int ");
    reveal_strlit("%");
    reveal_strlit("%call ");
    reveal_strlit("%mov ");
    reveal_strlit(" ");
    reveal_strlit(", ");
    reveal_strlit(", [");
    reveal_strlit(" + ");
    reveal_strlit("]");
    reveal_strlit("(");
    reveal_strlit(")");
    reveal_strlit(",");
    reveal_strlit("\n%");
    reveal_strlit("\n%call ");
    reveal_strlit("\n%mov ");
    reveal_strlit("\n");
    reveal_strlit(")\n");
    reveal_strlit("]\n");
    reveal_strlit("add");
    reveal_strlit("sub");
    reveal_strlit("mult");
    reveal_strlit("div");
    reveal_strlit("mod");
    reveal_strlit("lt");
    reveal_strlit("le");
    reveal_strlit("gt");
    reveal_strlit("ge");
    reveal_strlit("eq");
    reveal_strlit("ne");
    assert("\n%"@ =~= seq!['\n'] + "%"@);
    assert("\n%call "@ =~= seq!['\n'] + "%call "@);
    assert("\n%mov "@ =~= seq!['\n'] + "%mov "@);
    assert(")\n"@ =~= ")"@ + seq!['\n']);
    assert("]\n"@ =~= "]"@ + seq!['\n']);
}

#[verifier::rlimit(60)]
proof fn lemma_combine_lines(l: SExpr, r: SExpr, op: Seq<char>, n: nat, ll: Seq<Seq<char>>, lr: Seq<Seq<char>>, t0: nat, t1: nat)
    requires
        expr_lines(l, ll),
        expr_lines(r, lr),
        no_nl(op),
        op.len() > 0,
        op[0] != 'i',
        op[0] != 'j',
        op[0] != 'b',
        temps_once(ll, t0, t1),
        temps_once(lr, t1, n),
        t0 <= t1 <= n,
    ensures
        temps_once(ll + lr + seq![
            "%int "@ + temp_name(n),
            "%"@ + op + " "@ + temp_name(n) + ", "@ + l.name + ", "@ + r.name,
        ], t0, n + 1),
        expr_lines(combine_spec(l, r, op, n), ll + lr + seq![
            "%int "@ + temp_name(n),
            "%"@ + op + " "@ + temp_name(n) + ", "@ + l.name + ", "@ + r.name,
        ]),
{
    lemma_lit_facts();
    let dest = temp_name(n);
    lemma_temp_name_no_nl(n);
    let l1 = "%int "@ + dest;
    let rest2 = op + " "@ + dest + ", "@ + l.name + ", "@ + r.name;
    lemma_no_nl_add(op, " "@);
    lemma_no_nl_add(op + " "@, dest);
    lemma_no_nl_add(op + " "@ + dest, ", "@);
    lemma_no_nl_add(op + " "@ + dest + ", "@, l.name);
    lemma_no_nl_add(op + " "@ + dest + ", "@ + l.name, ", "@);
    lemma_no_nl_add(op + " "@ + dest + ", "@ + l.name + ", "@, r.name);
    lemma_plain_line("%int "@, dest);
    lemma_plain_line("%"@, rest2);
    let l2 = "%"@ + op + " "@ + dest + ", "@ + l.name + ", "@ + r.name;
    assert(l2 =~= "%"@ + rest2);
    lemma_unlines_concat(ll, lr);
    lemma_unlines_concat(ll + lr, seq![l1, l2]);
    lemma_unlines_two(l1, l2);
    lemma_plain_concat(ll, lr);
    assert(plain_lines(seq![l1, l2]));
    lemma_plain_concat(ll + lr, seq![l1, l2]);
    let c = combine_spec(l, r, op, n);
    assert(c.code =~= unlines(ll + lr + seq![l1, l2]));
    lemma_temps_concat(ll, lr, t0, t1, n);
    lemma_temps_push_temp(ll + lr, n, t0);
    assert(l2[1] == op[0]);
    lemma_not_temp(l2);
    lemma_temps_push_free((ll + lr).push(temp_line(n)), l2, t0, n + 1);
    lemma_temp_line_chars(n);
    lemma_no_jump(l1);
    lemma_no_jump(l2);
    lemma_no_jumps_concat(ll, lr);
    lemma_no_jumps_push(ll + lr, l1);
    lemma_no_jumps_push((ll + lr).push(l1), l2);
    assert((ll + lr).push(l1).push(l2) =~= ll + lr + seq![l1, l2]);
    assert((ll + lr).push(temp_line(n)).push(l2) =~= ll + lr + seq![l1, l2]);
}

/// All the strings of `ss` are free of newlines.
pub open spec fn all_no_nl(ss: Seq<Seq<char>>) -> bool {
    forall|k: int| 0 <= k < ss.len() ==> no_nl(#[trigger] ss[k])
}

proof fn lemma_join_no_nl(ss: Seq<Seq<char>>, sep: Seq<char>)
    requires
        all_no_nl(ss),
        no_nl(sep),
    ensures
        no_nl(join(ss, sep)),
    decreases ss.len(),
{
    if ss.len() > 1 {
        assert(all_no_nl(ss.drop_last())) by {
            assert forall|k: int| 0 <= k < ss.drop_last().len() implies no_nl(#[trigger] ss.drop_last()[k]) by {
                assert(ss.drop_last()[k] == ss[k]);
            }
        }
        lemma_join_no_nl(ss.drop_last(), sep);
        assert(no_nl(ss.last()));
        lemma_no_nl_add(join(ss.drop_last(), sep), sep);
        lemma_no_nl_add(join(ss.drop_last(), sep) + sep, ss.last());
    } else if ss.len() == 1 {
        assert(no_nl(ss[0]));
    }
}

proof fn lemma_empty_lines()
    ensures
        unlines(Seq::<Seq<char>>::empty()) == Seq::<char>::empty(),
        plain_lines(Seq::<Seq<char>>::empty()),
{
}

proof fn lemma_expression_lines(ts: Seq<SpecToken>, i: int, table: Seq<SFunc>, cf: Seq<char>, st: SState) -> (ls: Seq<Seq<char>>)
    requires
        idents_fit(ts),
    ensures
        spec_expression(ts, i, table, cf, st).res matches Ok(x) ==> expr_lines(x, ls)
            && temps_once(ls, st.temp_counter, spec_expression(ts, i, table, cf, st).st.temp_counter)
            && st.temp_counter <= spec_expression(ts, i, table, cf, st).st.temp_counter,
    decreases remaining(ts.len(), i), 3nat,
{
    reveal_with_fuel(spec_expression, 1); reveal_with_fuel(spec_expression_rest, 1); reveal_with_fuel(spec_multiply, 1); reveal_with_fuel(spec_multiply_rest, 1); reveal_with_fuel(spec_term, 1); reveal_with_fuel(spec_call, 1); reveal_with_fuel(spec_call_args, 1); reveal_with_fuel(spec_variable, 1);
    if 0 <= i < ts.len() {
        let lm = lemma_multiply_lines(ts, i, table, cf, st);
        let m = spec_multiply(ts, i, table, cf, st);
        if m.res is Ok && m.idx >= i {
            lemma_expression_rest_lines(ts, m.idx, table, cf, m.st, m.res->Ok_0, lm, st.temp_counter)
        } else {
            lm
        }
    } else {
        seq![]
    }
}

proof fn lemma_expression_rest_lines(ts: Seq<SpecToken>, i: int, table: Seq<SFunc>, cf: Seq<char>, st: SState, acc: SExpr, acc_ls: Seq<Seq<char>>, t_pre: nat) -> (ls: Seq<Seq<char>>)
    requires
        idents_fit(ts),
        expr_lines(acc, acc_ls),
        temps_once(acc_ls, t_pre, st.temp_counter),
        t_pre <= st.temp_counter,
    ensures
        spec_expression_rest(ts, i, table, cf, st, acc).res matches Ok(x) ==> expr_lines(x, ls)
            && temps_once(ls, t_pre, spec_expression_rest(ts, i, table, cf, st, acc).st.temp_counter)
            && st.temp_counter <= spec_expression_rest(ts, i, table, cf, st, acc).st.temp_counter,
    decreases remaining(ts.len(), i), 0nat,
{
    reveal_with_fuel(spec_expression, 1); reveal_with_fuel(spec_expression_rest, 1); reveal_with_fuel(spec_multiply, 1); reveal_with_fuel(spec_multiply_rest, 1); reveal_with_fuel(spec_term, 1); reveal_with_fuel(spec_call, 1); reveal_with_fuel(spec_call_args, 1); reveal_with_fuel(spec_variable, 1);
    lemma_lit_facts();
    if 0 <= i < ts.len() && additive_op(ts[i]) is Some {
        let op = additive_op(ts[i])->0;
        let lm = lemma_multiply_lines(ts, i + 1, table, cf, st);
        let m = spec_multiply(ts, i + 1, table, cf, st);
        if m.res is Ok && m.idx > i {
            let r = m.res->Ok_0;
            let n = m.st.temp_counter;
            lemma_combine_lines(acc, r, op, n, acc_ls, lm, t_pre, st.temp_counter);
            let lc = acc_ls + lm + seq![
                "%int "@ + temp_name(n),
                "%"@ + op + " "@ + temp_name(n) + ", "@ + acc.name + ", "@ + r.name,
            ];
            lemma_expression_rest_lines(ts, m.idx, table, cf, next_temp(m.st), combine_spec(acc, r, op, n), lc, t_pre)
        } else {
            acc_ls
        }
    } else {
        acc_ls
    }
}

proof fn lemma_multiply_lines(ts: Seq<SpecToken>, i: int, table: Seq<SFunc>, cf: Seq<char>, st: SState) -> (ls: Seq<Seq<char>>)
    requires
        idents_fit(ts),
    ensures
        spec_multiply(ts, i, table, cf, st).res matches Ok(x) ==> expr_lines(x, ls)
            && temps_once(ls, st.temp_counter, spec_multiply(ts, i, table, cf, st).st.temp_counter)
            && st.temp_counter <= spec_multiply(ts, i, table, cf, st).st.temp_counter,
    decreases remaining(ts.len(), i), 2nat,
{
    reveal_with_fuel(spec_expression, 1); reveal_with_fuel(spec_expression_rest, 1); reveal_with_fuel(spec_multiply, 1); reveal_with_fuel(spec_multiply_rest, 1); reveal_with_fuel(spec_term, 1); reveal_with_fuel(spec_call, 1); reveal_with_fuel(spec_call_args, 1); reveal_with_fuel(spec_variable, 1);
    if 0 <= i < ts.len() {
        let lt = lemma_term_lines(ts, i, table, cf, st);
        let m = spec_term(ts, i, table, cf, st);
        if m.res is Ok && m.idx >= i {
            lemma_multiply_rest_lines(ts, m.idx, table, cf, m.st, m.res->Ok_0, lt, st.temp_counter)
        } else {
            lt
        }
    } else {
        seq![]
    }
}

proof fn lemma_multiply_rest_lines(ts: Seq<SpecToken>, i: int, table: Seq<SFunc>, cf: Seq<char>, st: SState, acc: SExpr, acc_ls: Seq<Seq<char>>, t_pre: nat) -> (ls: Seq<Seq<char>>)
    requires
        idents_fit(ts),
        expr_lines(acc, acc_ls),
        temps_once(acc_ls, t_pre, st.temp_counter),
        t_pre <= st.temp_counter,
    ensures
        spec_multiply_rest(ts, i, table, cf, st, acc).res matches Ok(x) ==> expr_lines(x, ls)
            && temps_once(ls, t_pre, spec_multiply_rest(ts, i, table, cf, st, acc).st.temp_counter)
            && st.temp_counter <= spec_multiply_rest(ts, i, table, cf, st, acc).st.temp_counter,
    decreases remaining(ts.len(), i), 0nat,
{
    reveal_with_fuel(spec_expression, 1); reveal_with_fuel(spec_expression_rest, 1); reveal_with_fuel(spec_multiply, 1); reveal_with_fuel(spec_multiply_rest, 1); reveal_with_fuel(spec_term, 1); reveal_with_fuel(spec_call, 1); reveal_with_fuel(spec_call_args, 1); reveal_with_fuel(spec_variable, 1);
    lemma_lit_facts();
    if 0 <= i < ts.len() && multiplicative_op(ts[i]) is Some {
        let op = multiplicative_op(ts[i])->0;
        let lt = lemma_term_lines(ts, i + 1, table, cf, st);
        let m = spec_term(ts, i + 1, table, cf, st);
        if m.res is Ok && m.idx > i {
            let r = m.res->Ok_0;
            let n = m.st.temp_counter;
            lemma_combine_lines(acc, r, op, n, acc_ls, lt, t_pre, st.temp_counter);
            let lc = acc_ls + lt + seq![
                "%int "@ + temp_name(n),
                "%"@ + op + " "@ + temp_name(n) + ", "@ + acc.name + ", "@ + r.name,
            ];
            lemma_multiply_rest_lines(ts, m.idx, table, cf, next_temp(m.st), combine_spec(acc, r, op, n), lc, t_pre)
        } else {
            acc_ls
        }
    } else {
        acc_ls
    }
}

proof fn lemma_term_lines(ts: Seq<SpecToken>, i: int, table: Seq<SFunc>, cf: Seq<char>, st: SState) -> (ls: Seq<Seq<char>>)
    requires
        idents_fit(ts),
    ensures
        spec_term(ts, i, table, cf, st).res matches Ok(x) ==> expr_lines(x, ls)
            && temps_once(ls, st.temp_counter, spec_term(ts, i, table, cf, st).st.temp_counter)
            && st.temp_counter <= spec_term(ts, i, table, cf, st).st.temp_counter,
    decreases remaining(ts.len(), i), 1nat,
{
    reveal_with_fuel(spec_expression, 1); reveal_with_fuel(spec_expression_rest, 1); reveal_with_fuel(spec_multiply, 1); reveal_with_fuel(spec_multiply_rest, 1); reveal_with_fuel(spec_term, 1); reveal_with_fuel(spec_call, 1); reveal_with_fuel(spec_call_args, 1); reveal_with_fuel(spec_variable, 1);
    lemma_empty_lines();
    if 0 <= i < ts.len() {
        match ts[i] {
            SpecToken::Ident(name) => {
                assert(no_nl(name));
                if ts[i + 1] is LeftParen {
                    lemma_call_lines(ts, i, table, cf, st, name)
                } else {
                    lemma_variable_lines(ts, i, table, cf, st, name)
                }
            },
            SpecToken::Num(n) => {
                lemma_int_decimal_no_nl(n as int);
                seq![]
            },
            SpecToken::LeftParen => lemma_expression_lines(ts, i + 1, table, cf, st),
            _ => seq![],
        }
    } else {
        seq![]
    }
}

#[verifier::rlimit(100)]
proof fn lemma_call_lines(ts: Seq<SpecToken>, i: int, table: Seq<SFunc>, cf: Seq<char>, st: SState, name: Seq<char>) -> (ls: Seq<Seq<char>>)
    requires
        idents_fit(ts),
        no_nl(name),
    ensures
        spec_call(ts, i, table, cf, st, name).res matches Ok(x) ==> expr_lines(x, ls)
            && temps_once(ls, st.temp_counter, spec_call(ts, i, table, cf, st, name).st.temp_counter)
            && st.temp_counter <= spec_call(ts, i, table, cf, st, name).st.temp_counter,
    decreases remaining(ts.len(), i), 0nat,
{
    reveal_with_fuel(spec_expression, 1); reveal_with_fuel(spec_expression_rest, 1); reveal_with_fuel(spec_multiply, 1); reveal_with_fuel(spec_multiply_rest, 1); reveal_with_fuel(spec_term, 1); reveal_with_fuel(spec_call, 1); reveal_with_fuel(spec_call_args, 1); reveal_with_fuel(spec_variable, 1);
    lemma_lit_facts();
    lemma_empty_lines();
    if 0 <= i < ts.len() && lookup_function(table, name) is Some {
        let la = lemma_call_args_lines(ts, i + 2, table, cf, st, seq![], seq![], seq![], st.temp_counter);
        let a = spec_call_args(ts, i + 2, table, cf, st, seq![], seq![]);
        if a.res is Ok {
            let (code, args) = a.res->Ok_0;
            let dest = temp_name(a.st.temp_counter);
            lemma_temp_name_no_nl(a.st.temp_counter);
            lemma_join_no_nl(args, ","@);
            let l1 = "%int "@ + dest;
            let rest2 = dest + ", "@ + name + "("@ + join(args, ","@) + ")"@;
            lemma_no_nl_add(dest, ", "@);
            lemma_no_nl_add(dest + ", "@, name);
            lemma_no_nl_add(dest + ", "@ + name, "("@);
            lemma_no_nl_add(dest + ", "@ + name + "("@, join(args, ","@));
            lemma_no_nl_add(dest + ", "@ + name + "("@ + join(args, ","@), ")"@);
            lemma_plain_line("%int "@, dest);
            lemma_plain_line("%call "@, rest2);
            let l2 = "%call "@ + rest2;
            lemma_unlines_concat(la, seq![l1, l2]);
            lemma_unlines_two(l1, l2);
            assert(plain_lines(seq![l1, l2]));
            lemma_plain_concat(la, seq![l1, l2]);
            let x = SExpr {
                code: code + "%int "@ + dest + "\n%call "@ + dest + ", "@ + name + "("@ + join(args, ","@) + ")\n"@,
                name: dest,
            };
            assert(x.code =~= unlines(la + seq![l1, l2]));
            lemma_temps_push_temp(la, a.st.temp_counter, st.temp_counter);
            assert(l2[1] == 'c');
            lemma_not_temp(l2);
            lemma_temps_push_free(la.push(temp_line(a.st.temp_counter)), l2, st.temp_counter, a.st.temp_counter + 1);
            lemma_temp_line_chars(a.st.temp_counter);
            lemma_no_jump(l1);
            lemma_no_jump(l2);
            lemma_no_jumps_push(la, l1);
            lemma_no_jumps_push(la.push(l1), l2);
            assert(la.push(l1).push(l2) =~= la + seq![l1, l2]);
            assert(la.push(temp_line(a.st.temp_counter)).push(l2) =~= la + seq![l1, l2]);
            la + seq![l1, l2]
        } else {
            la
        }
    } else {
        seq![]
    }
}

proof fn lemma_call_args_lines(
    ts: Seq<SpecToken>,
    i: int,
    table: Seq<SFunc>,
    cf: Seq<char>,
    st: SState,
    code: Seq<char>,
    args: Seq<Seq<char>>,
    acc_ls: Seq<Seq<char>>,
    t_pre: nat,
) -> (ls: Seq<Seq<char>>)
    requires
        idents_fit(ts),
        code == unlines(acc_ls),
        plain_lines(acc_ls),
        all_no_nl(args),
        no_jumps(acc_ls),
        temps_once(acc_ls, t_pre, st.temp_counter),
        t_pre <= st.temp_counter,
    ensures
        spec_call_args(ts, i, table, cf, st, code, args).res matches Ok((c, a)) ==> c == unlines(ls) && plain_lines(ls)
            && all_no_nl(a) && no_jumps(ls)
            && temps_once(ls, t_pre, spec_call_args(ts, i, table, cf, st, code, args).st.temp_counter)
            && st.temp_counter <= spec_call_args(ts, i, table, cf, st, code, args).st.temp_counter,
    decreases remaining(ts.len(), i), 4nat,
{
    reveal_with_fuel(spec_expression, 1); reveal_with_fuel(spec_expression_rest, 1); reveal_with_fuel(spec_multiply, 1); reveal_with_fuel(spec_multiply_rest, 1); reveal_with_fuel(spec_term, 1); reveal_with_fuel(spec_call, 1); reveal_with_fuel(spec_call_args, 1); reveal_with_fuel(spec_variable, 1);
    if 0 <= i < ts.len() && !(ts[i] is RightParen) {
        let le = lemma_expression_lines(ts, i, table, cf, st);
        let a = spec_expression(ts, i, table, cf, st);
        if a.res is Ok {
            let x = a.res->Ok_0;
            lemma_unlines_concat(acc_ls, le);
            lemma_plain_concat(acc_ls, le);
            lemma_temps_concat(acc_ls, le, t_pre, st.temp_counter, a.st.temp_counter);
            lemma_no_jumps_concat(acc_ls, le);
            let args2 = args.push(x.name);
            assert(all_no_nl(args2)) by {
                assert forall|k: int| 0 <= k < args2.len() implies no_nl(#[trigger] args2[k]) by {
                    if k < args.len() {
                        assert(args2[k] == args[k]);
                    }
                }
            }
            if ts[a.idx] is Comma && a.idx >= i {
                lemma_call_args_lines(ts, a.idx + 1, table, cf, a.st, code + x.code, args2, acc_ls + le, t_pre)
            } else {
                acc_ls + le
            }
        } else {
            acc_ls
        }
    } else {
        acc_ls
    }
}

#[verifier::rlimit(60)]
proof fn lemma_variable_lines(ts: Seq<SpecToken>, i: int, table: Seq<SFunc>, cf: Seq<char>, st: SState, name: Seq<char>) -> (ls: Seq<Seq<char>>)
    requires
        idents_fit(ts),
        no_nl(name),
    ensures
        spec_variable(ts, i, table, cf, st, name).res matches Ok(x) ==> expr_lines(x, ls)
            && temps_once(ls, st.temp_counter, spec_variable(ts, i, table, cf, st, name).st.temp_counter)
            && st.temp_counter <= spec_variable(ts, i, table, cf, st, name).st.temp_counter,
    decreases remaining(ts.len(), i), 0nat,
{
    reveal_with_fuel(spec_expression, 1); reveal_with_fuel(spec_expression_rest, 1); reveal_with_fuel(spec_multiply, 1); reveal_with_fuel(spec_multiply_rest, 1); reveal_with_fuel(spec_term, 1); reveal_with_fuel(spec_call, 1); reveal_with_fuel(spec_call_args, 1); reveal_with_fuel(spec_variable, 1);
    lemma_lit_facts();
    lemma_empty_lines();
    if 0 <= i < ts.len() {
        let le = lemma_expression_lines(ts, i + 2, table, cf, st);
        let e = spec_expression(ts, i + 2, table, cf, st);
        if e.res is Ok && ts[i + 1] is LeftBracket {
            let x = e.res->Ok_0;
            let dest = temp_name(e.st.temp_counter);
            lemma_temp_name_no_nl(e.st.temp_counter);
            let l1 = "%int "@ + dest;
            let rest2 = dest + ", ["@ + name + " + "@ + x.name + "]"@;
            lemma_no_nl_add(dest, ", ["@);
            lemma_no_nl_add(dest + ", ["@, name);
            lemma_no_nl_add(dest + ", ["@ + name, " + "@);
            lemma_no_nl_add(dest + ", ["@ + name + " + "@, x.name);
            lemma_no_nl_add(dest + ", ["@ + name + " + "@ + x.name, "]"@);
            lemma_plain_line("%int "@, dest);
            lemma_plain_line("%mov "@, rest2);
            let l2 = "%mov "@ + rest2;
            lemma_unlines_concat(le, seq![l1, l2]);
            lemma_unlines_two(l1, l2);
            assert(plain_lines(seq![l1, l2]));
            lemma_plain_concat(le, seq![l1, l2]);
            let code = x.code + "%int "@ + dest + "\n%mov "@ + dest + ", ["@ + name + " + "@ + x.name + "]\n"@;
            assert(code =~= unlines(le + seq![l1, l2]));
            lemma_temps_push_temp(le, e.st.temp_counter, st.temp_counter);
            assert(l2[1] == 'm');
            lemma_not_temp(l2);
            lemma_temps_push_free(le.push(temp_line(e.st.temp_counter)), l2, st.temp_counter, e.st.temp_counter + 1);
            lemma_temp_line_chars(e.st.temp_counter);
            lemma_no_jump(l1);
            lemma_no_jump(l2);
            lemma_no_jumps_push(le, l1);
            lemma_no_jumps_push(le.push(l1), l2);
            assert(le.push(l1).push(l2) =~= le + seq![l1, l2]);
            assert(le.push(temp_line(e.st.temp_counter)).push(l2) =~= le + seq![l1, l2]);
            le + seq![l1, l2]
        } else {
            seq![]
        }
    } else {
        seq![]
    }
}

/* The IR of the statements that hold no label */

/// The labels of the enclosing loops hold no newline.
pub open spec fn loops_no_nl(ls: Seq<SLoop>) -> bool {
    forall|k: int| 0 <= k < ls.len() ==> no_nl((#[trigger] ls[k]).begin) && no_nl(ls[k].end)
}

proof fn lemma_append_line(code: Seq<char>, ls: Seq<Seq<char>>, line: Seq<char>)
    requires
        code == unlines(ls),
        plain_lines(ls),
        plain_line(line),
    ensures
        code + line + seq!['\n'] == unlines(ls.push(line)),
        plain_lines(ls.push(line)),
{
    assert(ls.push(line).drop_last() =~= ls);
    assert forall|k: int| 0 <= k < ls.push(line).len() implies plain_line(#[trigger] ls.push(line)[k]) by {
        if k < ls.len() {
            assert(ls.push(line)[k] == ls[k]);
        }
    }
}

proof fn lemma_lit_facts2()
    ensures
        no_nl("%ret "@), "%ret "@.len() > 0, "%ret "@[0] == '%',
        no_nl("%out "@), "%out "@.len() > 0, "%out "@[0] == '%',
        no_nl("%input "@), "%input "@.len() > 0, "%input "@[0] == '%',
        no_nl("%int[] "@), "%int[] "@.len() > 0, "%int[] "@[0] == '%',
        no_nl("%jmp "@), "%jmp "@.len() > 0, "%jmp "@[0] == '%',
        no_nl("%mov ["@), "%mov ["@.len() > 0, "%mov ["@[0] == '%',
        no_nl("], "@),
        no_nl(", ["@),
        "%ret "@.len() == 5, "%ret "@[1] == 'r',
        "%out "@.len() == 5, "%out "@[1] == 'o',
        "%input "@.len() == 7, "%input "@[3] == 'p', "%input "@[1] == 'i',
        "%int[] "@.len() == 7, "%int[] "@[4] == '[', "%int[] "@[1] == 'i',
        "%int "@[1] == 'i',
        "%jmp "@.len() == 5, "%jmp "@[1] == 'j',
        "%mov ["@.len() == 6, "%mov ["@[1] == 'm',
        "%int "@.len() == 5,
{
    reveal_strlit("%int ");
    reveal_strlit("%ret ");
    reveal_strlit("%out ");
    reveal_strlit("%input ");
    reveal_strlit("%int[] ");
    reveal_strlit("%jmp ");
    reveal_strlit("%mov [");
    reveal_strlit("], ");
    reveal_strlit(", [");
}

/// `code + prefix + rest + "\n"` adds one instruction line to `ls`.
proof fn lemma_add_instr(code: Seq<char>, ls: Seq<Seq<char>>, prefix: Seq<char>, rest: Seq<char>)
    requires
        code == unlines(ls),
        no_nl(prefix),
        prefix.len() > 0,
        prefix[0] == '%',
        no_nl(rest),
    ensures
        code + (prefix + rest) + seq!['\n'] == unlines(ls.push(prefix + rest)),
        plain_lines(ls) ==> plain_lines(ls.push(prefix + rest)),
        plain_line(prefix + rest),
{
    lemma_plain_line(prefix, rest);
    assert(ls.push(prefix + rest).drop_last() =~= ls);
    if plain_lines(ls) {
        lemma_append_line(code, ls, prefix + rest);
    }
}

proof fn lemma_lines_in_concat(a: Seq<Seq<char>>, b: Seq<Seq<char>>, s0: SState, s1: SState)
    requires
        lines_in(a, s0, s1),
        lines_in(b, s0, s1),
    ensures
        lines_in(a + b, s0, s1),
{
    assert forall|k: int| 0 <= k < (a + b).len() implies line_in(#[trigger] (a + b)[k], s0, s1) by {
        if k < a.len() {
            assert((a + b)[k] == a[k]);
        } else {
            assert((a + b)[k] == b[k - a.len()]);
        }
    }
}

proof fn lemma_no_nl3(a: Seq<char>, b: Seq<char>, c: Seq<char>)
    requires
        no_nl(a),
        no_nl(b),
        no_nl(c),
    ensures
        no_nl(a + b + c),
{
    lemma_no_nl_add(a, b);
    lemma_no_nl_add(a + b, c);
}

/// `return e;`, `print e;`, `read x;`, `break;`, `continue;`, a call
/// statement and a declaration give instruction lines only.
#[verifier::rlimit(60)]
proof fn lemma_simple_lines(ts: Seq<SpecToken>, i: int, table: Seq<SFunc>, cf: Seq<char>, st: SState) -> (ls: Seq<Seq<char>>)
    requires
        idents_fit(ts),
        ts.len() >= 1,
        ts.last() is End,
        loops_no_nl(st.loop_stack),
        0 <= i < ts.len(),
        !(ts[i] is If || ts[i] is While),
    ensures
        spec_statement(ts, i, table, cf, st).res matches Ok(code) ==> code == unlines(ls) && plain_lines(ls)
            && temps_once(ls, st.temp_counter, spec_statement(ts, i, table, cf, st).st.temp_counter)
            && st.temp_counter <= spec_statement(ts, i, table, cf, st).st.temp_counter
            && jumps_into(ls, ls, st.loop_stack),
{
    reveal_with_fuel(spec_statement, 1);
    lemma_temps_empty(st.temp_counter, st.temp_counter);
    lemma_jump_chars();
    lemma_lit_facts();
    lemma_lit_facts2();
    lemma_empty_lines();
    let e0 = Seq::<Seq<char>>::empty();
    match ts[i] {
        SpecToken::Return => {
            reveal(spec_return);
            let le = lemma_expression_lines(ts, i + 1, table, cf, st);
            let e = spec_expression(ts, i + 1, table, cf, st);
            if e.res is Ok {
                let x = e.res->Ok_0;
                lemma_add_instr(x.code, le, "%ret "@, x.name);
                assert(("%ret "@ + x.name)[1] == 'r');
                lemma_not_temp("%ret "@ + x.name);
                lemma_temps_push_free(le, "%ret "@ + x.name, st.temp_counter, e.st.temp_counter);
                assert(x.code + "%ret "@ + x.name + "\n"@ =~= x.code + ("%ret "@ + x.name) + seq!['\n']);
                lemma_no_jump("%ret "@ + x.name);
                lemma_no_jumps_push(le, "%ret "@ + x.name);
                lemma_jumps_none(le.push("%ret "@ + x.name), le.push("%ret "@ + x.name), st.loop_stack);
                le.push("%ret "@ + x.name)
            } else { e0 }
        },
        SpecToken::Print => {
            reveal(spec_print);
            let le = lemma_expression_lines(ts, i + 1, table, cf, st);
            let e = spec_expression(ts, i + 1, table, cf, st);
            if e.res is Ok {
                let x = e.res->Ok_0;
                lemma_add_instr(x.code, le, "%out "@, x.name);
                assert(("%out "@ + x.name)[1] == 'o');
                lemma_not_temp("%out "@ + x.name);
                lemma_temps_push_free(le, "%out "@ + x.name, st.temp_counter, e.st.temp_counter);
                assert(x.code + "%out "@ + x.name + "\n"@ =~= x.code + ("%out "@ + x.name) + seq!['\n']);
                lemma_no_jump("%out "@ + x.name);
                lemma_no_jumps_push(le, "%out "@ + x.name);
                lemma_jumps_none(le.push("%out "@ + x.name), le.push("%out "@ + x.name), st.loop_stack);
                le.push("%out "@ + x.name)
            } else { e0 }
        },
        SpecToken::Read => {
            reveal(spec_read);
            let paren = ts[i + 1] is LeftParen;
            let j = if paren { i + 2 } else { i + 1 };
            if ts[j] is Ident {
                assert(j < ts.len());
                let name = ts[j]->Ident_0;
                lemma_add_instr(seq![], e0, "%input "@, name);
                assert(("%input "@ + name)[3] == 'p');
                lemma_not_temp("%input "@ + name);
                lemma_temps_push_free(e0, "%input "@ + name, st.temp_counter, st.temp_counter);
                assert("%input "@ + name + "\n"@ =~= Seq::<char>::empty() + ("%input "@ + name) + seq!['\n']);
                assert(("%input "@ + name)[1] == 'i');
                lemma_no_jump("%input "@ + name);
                lemma_no_jumps_push(e0, "%input "@ + name);
                lemma_jumps_none(e0.push("%input "@ + name), e0.push("%input "@ + name), st.loop_stack);
                e0.push("%input "@ + name)
            } else { e0 }
        },
        SpecToken::Break => {
            reveal(spec_break);
            if st.loop_stack.len() > 0 {
                let l = st.loop_stack.last();
                assert(no_nl(st.loop_stack[st.loop_stack.len() - 1].end));
                lemma_add_instr(seq![], e0, "%jmp "@, l.end);
                assert(("%jmp "@ + l.end)[1] == 'j');
                lemma_not_temp("%jmp "@ + l.end);
                lemma_temps_push_free(e0, "%jmp "@ + l.end, st.temp_counter, st.temp_counter);
                assert("%jmp "@ + l.end + "\n"@ =~= Seq::<char>::empty() + ("%jmp "@ + l.end) + seq!['\n']);
                lemma_jmp_target(l.end);
                let n1 = (st.loop_stack.len() - 1) as int;
                assert(st.loop_stack[n1] == l);
                assert(in_stack(l.end, st.loop_stack));
                lemma_jumps_push(e0, "%jmp "@ + l.end, e0.push("%jmp "@ + l.end), st.loop_stack);
                e0.push("%jmp "@ + l.end)
            } else { e0 }
        },
        SpecToken::Continue => {
            reveal(spec_continue);
            if st.loop_stack.len() > 0 {
                let l = st.loop_stack.last();
                assert(no_nl(st.loop_stack[st.loop_stack.len() - 1].begin));
                lemma_add_instr(seq![], e0, "%jmp "@, l.begin);
                assert(("%jmp "@ + l.begin)[1] == 'j');
                lemma_not_temp("%jmp "@ + l.begin);
                lemma_temps_push_free(e0, "%jmp "@ + l.begin, st.temp_counter, st.temp_counter);
                assert("%jmp "@ + l.begin + "\n"@ =~= Seq::<char>::empty() + ("%jmp "@ + l.begin) + seq!['\n']);
                lemma_jmp_target(l.begin);
                let n1 = (st.loop_stack.len() - 1) as int;
                assert(st.loop_stack[n1] == l);
                assert(in_stack(l.begin, st.loop_stack));
                lemma_jumps_push(e0, "%jmp "@ + l.begin, e0.push("%jmp "@ + l.begin), st.loop_stack);
                e0.push("%jmp "@ + l.begin)
            } else { e0 }
        },
        SpecToken::Int => {
            reveal(spec_declaration);
            let d = lemma_declaration_lines(ts, i, table, cf, st);
            if spec_declaration(ts, i, table, cf, st).res is Ok {
                lemma_jumps_none(d, d, st.loop_stack);
            }
            d
        },
        SpecToken::Ident(_) => {
            if i + 1 < ts.len() && ts[i + 1] is LeftParen {
                let d = lemma_expression_lines(ts, i, table, cf, st);
                if spec_expression(ts, i, table, cf, st).res is Ok {
                    lemma_jumps_none(d, d, st.loop_stack);
                }
                d
            } else {
                reveal(spec_assignment);
                let d = lemma_assignment_lines(ts, i, table, cf, st);
                if spec_assignment(ts, i, table, cf, st).res is Ok {
                    lemma_jumps_none(d, d, st.loop_stack);
                }
                d
            }
        },
        _ => e0,
    }
}

#[verifier::rlimit(60)]
proof fn lemma_declaration_lines(ts: Seq<SpecToken>, i: int, table: Seq<SFunc>, cf: Seq<char>, st: SState) -> (ls: Seq<Seq<char>>)
    requires
        idents_fit(ts),
        ts.len() >= 1,
        ts.last() is End,
        0 <= i < ts.len(),
    ensures
        spec_declaration(ts, i, table, cf, st).res matches Ok(code) ==> code == unlines(ls) && plain_lines(ls)
            && temps_once(ls, st.temp_counter, spec_declaration(ts, i, table, cf, st).st.temp_counter)
            && st.temp_counter <= spec_declaration(ts, i, table, cf, st).st.temp_counter
            && no_jumps(ls),
{
    reveal(spec_declaration);
    lemma_lit_facts();
    lemma_lit_facts2();
    lemma_empty_lines();
    lemma_temps_empty(st.temp_counter, st.temp_counter);
    let e0 = Seq::<Seq<char>>::empty();
    let i1 = i + 1;
    let j = if ts[i1] is LeftBracket { i1 + 3 } else { i1 };
    let shape = !(ts[i1] is LeftBracket) || (ts[i1 + 1] is Num && ts[i1 + 2] is RightBracket);
    if ts[i] is Int && shape && ts[j] is Ident {
        assert(i1 < ts.len());
        if ts[i1] is LeftBracket {
            assert(i1 + 1 < ts.len());
            if ts[i1 + 1] is Num {
                assert(i1 + 2 < ts.len());
                if ts[i1 + 2] is RightBracket {
                    assert(i1 + 3 < ts.len());
                }
            }
        }
        let name = ts[j]->Ident_0;
        assert(no_nl(name));
        if ts[i1] is LeftBracket {
            let size = (ts[i1 + 1]->Num_0) as usize;
            lemma_nat_decimal_no_nl(size as nat);
            lemma_no_nl3(name, ", "@, nat_decimal(size as nat));
            lemma_add_instr(seq![], e0, "%int[] "@, name + ", "@ + nat_decimal(size as nat));
            assert(("%int[] "@ + (name + ", "@ + nat_decimal(size as nat)))[4] == '[');
            lemma_not_temp("%int[] "@ + (name + ", "@ + nat_decimal(size as nat)));
            lemma_temps_push_free(e0, "%int[] "@ + (name + ", "@ + nat_decimal(size as nat)), st.temp_counter, st.temp_counter);
            assert("%int[] "@ + name + ", "@ + nat_decimal(size as nat) + "\n"@
                =~= Seq::<char>::empty() + ("%int[] "@ + (name + ", "@ + nat_decimal(size as nat))) + seq!['\n']);
            assert(("%int[] "@ + (name + ", "@ + nat_decimal(size as nat)))[1] == 'i');
            lemma_no_jump("%int[] "@ + (name + ", "@ + nat_decimal(size as nat)));
            lemma_no_jumps_push(e0, "%int[] "@ + (name + ", "@ + nat_decimal(size as nat)));
            e0.push("%int[] "@ + (name + ", "@ + nat_decimal(size as nat)))
        } else {
            let t2 = spec_add_local(table, cf, SVar { name, kind: VarKind::Scalar }).1;
            lemma_add_instr(seq![], e0, "%int "@, name);
            let decl_ls = e0.push("%int "@ + name);
            assert(name.len() == 0 || name[0] != '_');
            if name.len() > 0 {
                assert(("%int "@ + name)[5] == name[0]);
            }
            lemma_not_temp("%int "@ + name);
            lemma_temps_push_free(e0, "%int "@ + name, st.temp_counter, st.temp_counter);
            assert(("%int "@ + name)[1] == 'i');
            lemma_no_jump("%int "@ + name);
            lemma_no_jumps_push(e0, "%int "@ + name);
            assert("%int "@ + name + "\n"@ =~= Seq::<char>::empty() + ("%int "@ + name) + seq!['\n']);
            let le = lemma_expression_lines(ts, j + 2, t2, cf, st);
            let e = spec_expression(ts, j + 2, t2, cf, st);
            if ts[j + 1] is Assign && e.res is Ok {
                let x = e.res->Ok_0;
                lemma_unlines_concat(decl_ls, le);
                lemma_plain_concat(decl_ls, le);
                lemma_no_nl3(name, ", "@, x.name);
                lemma_add_instr(unlines(decl_ls + le), decl_ls + le, "%mov "@, name + ", "@ + x.name);
                lemma_temps_concat(decl_ls, le, st.temp_counter, st.temp_counter, e.st.temp_counter);
                assert(("%mov "@ + (name + ", "@ + x.name))[1] == 'm');
                lemma_not_temp("%mov "@ + (name + ", "@ + x.name));
                lemma_temps_push_free(decl_ls + le, "%mov "@ + (name + ", "@ + x.name), st.temp_counter, e.st.temp_counter);
                lemma_no_jumps_concat(decl_ls, le);
                lemma_no_jump("%mov "@ + (name + ", "@ + x.name));
                lemma_no_jumps_push(decl_ls + le, "%mov "@ + (name + ", "@ + x.name));
                assert("%int "@ + name + "\n"@ + x.code + "%mov "@ + name + ", "@ + x.name + "\n"@
                    =~= unlines(decl_ls + le) + ("%mov "@ + (name + ", "@ + x.name)) + seq!['\n']);
                (decl_ls + le).push("%mov "@ + (name + ", "@ + x.name))
            } else {
                decl_ls
            }
        }
    } else {
        e0
    }
}

#[verifier::rlimit(100)]
proof fn lemma_assignment_lines(ts: Seq<SpecToken>, i: int, table: Seq<SFunc>, cf: Seq<char>, st: SState) -> (ls: Seq<Seq<char>>)
    requires
        idents_fit(ts),
        0 <= i < ts.len(),
    ensures
        spec_assignment(ts, i, table, cf, st).res matches Ok(code) ==> code == unlines(ls) && plain_lines(ls)
            && temps_once(ls, st.temp_counter, spec_assignment(ts, i, table, cf, st).st.temp_counter)
            && st.temp_counter <= spec_assignment(ts, i, table, cf, st).st.temp_counter
            && no_jumps(ls),
{
    reveal(spec_assignment);
    reveal(spec_target_index);
    reveal(spec_source_index);
    lemma_lit_facts();
    lemma_lit_facts2();
    lemma_empty_lines();
    let e0 = Seq::<Seq<char>>::empty();
    if ts[i] is Ident && lookup_function(table, cf) is Some {
        let ident = ts[i]->Ident_0;
        assert(no_nl(ident));
        let f = lookup_function(table, cf)->0;
        let i1 = i + 1;
        if lookup_variable(f, ident) is Some {
            let lv = lookup_variable(f, ident)->0;
            let ll = lemma_expression_lines(ts, i1 + 1, table, cf, st);
            let l = spec_target_index(ts, i1, table, cf, st, ident, lv.kind);
            if l.res is Ok && ts[l.idx] is Assign {
                let lhs = l.res->Ok_0;
                let lr = lemma_expression_lines(ts, l.idx + 1, table, cf, l.st);
                let r = spec_expression(ts, l.idx + 1, table, cf, l.st);
                if r.res is Ok {
                    let rhs = r.res->Ok_0;
                    let ls_src = lemma_expression_lines(ts, r.idx + 1, table, cf, r.st);
                    let s = spec_source_index(ts, r.idx, table, cf, r.st, f, rhs);
                    if s.res is Ok {
                        let src = s.res->Ok_0;
                        let tmp = temp_name(s.st.temp_counter);
                        lemma_temp_name_no_nl(s.st.temp_counter);
                        match (lhs, src) {
                            (Some(lx), None) => {
                                lemma_unlines_concat(ll, lr);
                                lemma_plain_concat(ll, lr);
                                let a = ll + lr;
                                lemma_add_instr(unlines(a), a, "%int "@, tmp);
                                let b = a.push("%int "@ + tmp);
                                lemma_no_nl3(tmp, ", "@, lx.name);
                                lemma_add_instr(unlines(b), b, "%mov "@, tmp + ", "@ + lx.name);
                                let c = b.push("%mov "@ + (tmp + ", "@ + lx.name));
                                lemma_no_nl3(ident, " + "@, tmp);
                                lemma_no_nl3(ident + " + "@ + tmp, "], "@, rhs.name);
                                lemma_add_instr(unlines(c), c, "%mov ["@, ident + " + "@ + tmp + "], "@ + rhs.name);
                                let d = c.push("%mov ["@ + (ident + " + "@ + tmp + "], "@ + rhs.name));
                                assert(assignment_code(ident, lhs, rhs, src, s.st.temp_counter) =~= unlines(d));
                                let tn = s.st.temp_counter;
                                lemma_temps_concat(ll, lr, st.temp_counter, l.st.temp_counter, r.st.temp_counter);
                                lemma_temps_push_temp(a, tn, st.temp_counter);
                                assert(b == a.push(temp_line(tn)));
                                assert(("%mov "@ + (tmp + ", "@ + lx.name))[1] == 'm');
                                lemma_not_temp("%mov "@ + (tmp + ", "@ + lx.name));
                                lemma_temps_push_free(b, "%mov "@ + (tmp + ", "@ + lx.name), st.temp_counter, tn + 1);
                                assert(("%mov ["@ + (ident + " + "@ + tmp + "], "@ + rhs.name))[1] == 'm');
                                lemma_not_temp("%mov ["@ + (ident + " + "@ + tmp + "], "@ + rhs.name));
                                lemma_temps_push_free(c, "%mov ["@ + (ident + " + "@ + tmp + "], "@ + rhs.name), st.temp_counter, tn + 1);
                                lemma_no_jumps_concat(ll, lr);
                                lemma_temp_line_chars(tn);
                                lemma_no_jump(temp_line(tn));
                                lemma_no_jumps_push(a, temp_line(tn));
                                lemma_no_jump("%mov "@ + (tmp + ", "@ + lx.name));
                                lemma_no_jumps_push(b, "%mov "@ + (tmp + ", "@ + lx.name));
                                lemma_no_jump("%mov ["@ + (ident + " + "@ + tmp + "], "@ + rhs.name));
                                lemma_no_jumps_push(c, "%mov ["@ + (ident + " + "@ + tmp + "], "@ + rhs.name));
                                d
                            },
                            (None, Some(rx)) => {
                                lemma_unlines_concat(lr, ls_src);
                                lemma_plain_concat(lr, ls_src);
                                let a = lr + ls_src;
                                lemma_add_instr(unlines(a), a, "%int "@, tmp);
                                let b = a.push("%int "@ + tmp);
                                lemma_no_nl3(tmp, ", "@, rx.name);
                                lemma_add_instr(unlines(b), b, "%mov "@, tmp + ", "@ + rx.name);
                                let c = b.push("%mov "@ + (tmp + ", "@ + rx.name));
                                lemma_no_nl3(ident, ", ["@, rhs.name);
                                lemma_no_nl3(ident + ", ["@ + rhs.name, " + "@, tmp);
                                lemma_no_nl_add(ident + ", ["@ + rhs.name + " + "@ + tmp, "]"@);
                                lemma_add_instr(unlines(c), c, "%mov "@, ident + ", ["@ + rhs.name + " + "@ + tmp + "]"@);
                                let d = c.push("%mov "@ + (ident + ", ["@ + rhs.name + " + "@ + tmp + "]"@));
                                assert(assignment_code(ident, lhs, rhs, src, s.st.temp_counter) =~= unlines(d));
                                let tn = s.st.temp_counter;
                                lemma_temps_concat(lr, ls_src, st.temp_counter, r.st.temp_counter, tn);
                                lemma_temps_push_temp(a, tn, st.temp_counter);
                                assert(b == a.push(temp_line(tn)));
                                assert(("%mov "@ + (tmp + ", "@ + rx.name))[1] == 'm');
                                lemma_not_temp("%mov "@ + (tmp + ", "@ + rx.name));
                                lemma_temps_push_free(b, "%mov "@ + (tmp + ", "@ + rx.name), st.temp_counter, tn + 1);
                                assert(("%mov "@ + (ident + ", ["@ + rhs.name + " + "@ + tmp + "]"@))[1] == 'm');
                                lemma_not_temp("%mov "@ + (ident + ", ["@ + rhs.name + " + "@ + tmp + "]"@));
                                lemma_temps_push_free(c, "%mov "@ + (ident + ", ["@ + rhs.name + " + "@ + tmp + "]"@), st.temp_counter, tn + 1);
                                lemma_no_jumps_concat(lr, ls_src);
                                lemma_temp_line_chars(tn);
                                lemma_no_jump(temp_line(tn));
                                lemma_no_jumps_push(a, temp_line(tn));
                                lemma_no_jump("%mov "@ + (tmp + ", "@ + rx.name));
                                lemma_no_jumps_push(b, "%mov "@ + (tmp + ", "@ + rx.name));
                                lemma_no_jump("%mov "@ + (ident + ", ["@ + rhs.name + " + "@ + tmp + "]"@));
                                lemma_no_jumps_push(c, "%mov "@ + (ident + ", ["@ + rhs.name + " + "@ + tmp + "]"@));
                                d
                            },
                            _ => {
                                lemma_no_nl3(ident, ", "@, rhs.name);
                                lemma_add_instr(unlines(lr), lr, "%mov "@, ident + ", "@ + rhs.name);
                                let d = lr.push("%mov "@ + (ident + ", "@ + rhs.name));
                                assert(assignment_code(ident, lhs, rhs, src, s.st.temp_counter) =~= unlines(d));
                                assert(("%mov "@ + (ident + ", "@ + rhs.name))[1] == 'm');
                                lemma_not_temp("%mov "@ + (ident + ", "@ + rhs.name));
                                lemma_temps_push_free(lr, "%mov "@ + (ident + ", "@ + rhs.name), st.temp_counter, r.st.temp_counter);
                                lemma_no_jump("%mov "@ + (ident + ", "@ + rhs.name));
                                lemma_no_jumps_push(lr, "%mov "@ + (ident + ", "@ + rhs.name));
                                d
                            },
                        }
                    } else { e0 }
                } else { e0 }
            } else { e0 }
        } else { e0 }
    } else {
        e0
    }
}

/* Label lines */

/// `l` is the line of a loop label or an `if` label whose number the
/// counters drew between the states `s0` and `s1`.
pub open spec fn label_in(l: Seq<char>, s0: SState, s1: SState) -> bool {
    ||| exists|id: int| #![trigger int_decimal(id)] s0.label_counter <= id < s1.label_counter
        && (l == ":loopbegin"@ + int_decimal(id) || l == ":endloop"@ + int_decimal(id))
    ||| exists|n: nat| #![trigger nat_decimal(n)] s0.if_counter <= n < s1.if_counter
        && (l == ":"@ + ("iftrue"@ + nat_decimal(n)) || l == ":"@ + ("else"@ + nat_decimal(n))
            || l == ":"@ + ("endif"@ + nat_decimal(n)))
}

/// `l` is an instruction line, or a label line drawn between `s0` and `s1`.
pub open spec fn line_in(l: Seq<char>, s0: SState, s1: SState) -> bool {
    ||| plain_line(l)
    ||| no_nl(l) && label_in(l, s0, s1)
}

pub open spec fn lines_in(ls: Seq<Seq<char>>, s0: SState, s1: SState) -> bool {
    forall|k: int| 0 <= k < ls.len() ==> line_in(#[trigger] ls[k], s0, s1)
}

/// Two equal lines of `ls` are instruction lines: no label line occurs twice.
pub open spec fn labels_once(ls: Seq<Seq<char>>) -> bool {
    forall|a: int, b: int| #![trigger ls[a], ls[b]] 0 <= a < b < ls.len() && ls[a] == ls[b] ==> plain_line(ls[a])
}

/// The label counters of `s0` are at most those of `s1`.
pub open spec fn counters_le(s0: SState, s1: SState) -> bool {
    s0.label_counter <= s1.label_counter && s0.if_counter <= s1.if_counter
}

proof fn lemma_prefix_cancel(p: Seq<char>, x: Seq<char>, y: Seq<char>)
    requires
        p + x == p + y,
    ensures
        x == y,
{
    assert((p + x).subrange(p.len() as int, (p + x).len() as int) =~= x);
    assert((p + y).subrange(p.len() as int, (p + y).len() as int) =~= y);
}

proof fn lemma_label_chars(id: int, n: nat)
    ensures
        (":loopbegin"@ + int_decimal(id)).len() > 4,
        (":loopbegin"@ + int_decimal(id))[0] == ':',
        (":loopbegin"@ + int_decimal(id))[1] == 'l',
        (":endloop"@ + int_decimal(id)).len() > 4,
        (":endloop"@ + int_decimal(id))[0] == ':',
        (":endloop"@ + int_decimal(id))[1] == 'e',
        (":endloop"@ + int_decimal(id))[2] == 'n',
        (":endloop"@ + int_decimal(id))[4] == 'l',
        (":"@ + ("iftrue"@ + nat_decimal(n))).len() > 4,
        (":"@ + ("iftrue"@ + nat_decimal(n)))[0] == ':',
        (":"@ + ("iftrue"@ + nat_decimal(n)))[1] == 'i',
        (":"@ + ("else"@ + nat_decimal(n))).len() > 4,
        (":"@ + ("else"@ + nat_decimal(n)))[0] == ':',
        (":"@ + ("else"@ + nat_decimal(n)))[1] == 'e',
        (":"@ + ("else"@ + nat_decimal(n)))[2] == 'l',
        (":"@ + ("endif"@ + nat_decimal(n))).len() > 4,
        (":"@ + ("endif"@ + nat_decimal(n)))[0] == ':',
        (":"@ + ("endif"@ + nat_decimal(n)))[1] == 'e',
        (":"@ + ("endif"@ + nat_decimal(n)))[2] == 'n',
        (":"@ + ("endif"@ + nat_decimal(n)))[4] == 'i',
{
    reveal_strlit(":loopbegin");
    reveal_strlit(":endloop");
    reveal_strlit(":");
    reveal_strlit("iftrue");
    reveal_strlit("else");
    reveal_strlit("endif");
    lemma_nat_decimal_no_nl(n);
    assert(("iftrue"@ + nat_decimal(n))[0] == 'i');
    assert(("else"@ + nat_decimal(n))[0] == 'e');
    assert(("else"@ + nat_decimal(n))[1] == 'l');
    assert(("endif"@ + nat_decimal(n))[0] == 'e');
    assert(("endif"@ + nat_decimal(n))[1] == 'n');
    assert(("endif"@ + nat_decimal(n))[3] == 'i');
}

/// A label line is no instruction line: it begins with `:`.
proof fn lemma_label_not_plain(l: Seq<char>, s0: SState, s1: SState)
    requires
        label_in(l, s0, s1),
    ensures
        !plain_line(l),
{
    if exists|id: int| #![trigger int_decimal(id)] s0.label_counter <= id < s1.label_counter
        && (l == ":loopbegin"@ + int_decimal(id) || l == ":endloop"@ + int_decimal(id)) {
        let id = choose|id: int| #![trigger int_decimal(id)] s0.label_counter <= id < s1.label_counter
            && (l == ":loopbegin"@ + int_decimal(id) || l == ":endloop"@ + int_decimal(id));
        lemma_label_chars(id, 0);
    } else {
        let n = choose|n: nat| #![trigger nat_decimal(n)] s0.if_counter <= n < s1.if_counter
            && (l == ":"@ + ("iftrue"@ + nat_decimal(n)) || l == ":"@ + ("else"@ + nat_decimal(n))
                || l == ":"@ + ("endif"@ + nat_decimal(n)));
        lemma_label_chars(0, n);
    }
}

/// Label lines drawn in windows that do not overlap are different.
proof fn lemma_label_disjoint(l: Seq<char>, s0: SState, s1: SState, s2: SState, s3: SState)
    requires
        counters_le(s1, s2),
    ensures
        !(label_in(l, s0, s1) && label_in(l, s2, s3)),
{
    if label_in(l, s0, s1) && label_in(l, s2, s3) {
        let a_loop = exists|id: int| #![trigger int_decimal(id)] s0.label_counter <= id < s1.label_counter
            && (l == ":loopbegin"@ + int_decimal(id) || l == ":endloop"@ + int_decimal(id));
        let b_loop = exists|id: int| #![trigger int_decimal(id)] s2.label_counter <= id < s3.label_counter
            && (l == ":loopbegin"@ + int_decimal(id) || l == ":endloop"@ + int_decimal(id));
        let x = choose|id: int| #![trigger int_decimal(id)] s0.label_counter <= id < s1.label_counter
            && (l == ":loopbegin"@ + int_decimal(id) || l == ":endloop"@ + int_decimal(id));
        let y = choose|id: int| #![trigger int_decimal(id)] s2.label_counter <= id < s3.label_counter
            && (l == ":loopbegin"@ + int_decimal(id) || l == ":endloop"@ + int_decimal(id));
        let n = choose|n: nat| #![trigger nat_decimal(n)] s0.if_counter <= n < s1.if_counter
            && (l == ":"@ + ("iftrue"@ + nat_decimal(n)) || l == ":"@ + ("else"@ + nat_decimal(n))
                || l == ":"@ + ("endif"@ + nat_decimal(n)));
        let m = choose|n: nat| #![trigger nat_decimal(n)] s2.if_counter <= n < s3.if_counter
            && (l == ":"@ + ("iftrue"@ + nat_decimal(n)) || l == ":"@ + ("else"@ + nat_decimal(n))
                || l == ":"@ + ("endif"@ + nat_decimal(n)));
        lemma_label_chars(x, n);
        lemma_label_chars(y, m);
        lemma_label_chars(x, m);
        lemma_label_chars(y, n);
        if a_loop && b_loop {
            law_labels_distinct(x, y, 0, 0);
        } else if !a_loop && !b_loop {
            law_labels_distinct(0, 0, n, m);
            if l == ":"@ + ("iftrue"@ + nat_decimal(n)) && l == ":"@ + ("iftrue"@ + nat_decimal(m)) {
                lemma_prefix_cancel(":"@, "iftrue"@ + nat_decimal(n), "iftrue"@ + nat_decimal(m));
            }
            if l == ":"@ + ("else"@ + nat_decimal(n)) && l == ":"@ + ("else"@ + nat_decimal(m)) {
                lemma_prefix_cancel(":"@, "else"@ + nat_decimal(n), "else"@ + nat_decimal(m));
            }
            if l == ":"@ + ("endif"@ + nat_decimal(n)) && l == ":"@ + ("endif"@ + nat_decimal(m)) {
                lemma_prefix_cancel(":"@, "endif"@ + nat_decimal(n), "endif"@ + nat_decimal(m));
            }
        }
    }
}

proof fn lemma_label_widen(l: Seq<char>, s0: SState, s1: SState, t0: SState, t1: SState)
    requires
        label_in(l, s0, s1),
        counters_le(t0, s0),
        counters_le(s1, t1),
    ensures
        label_in(l, t0, t1),
{
    if exists|id: int| #![trigger int_decimal(id)] s0.label_counter <= id < s1.label_counter
        && (l == ":loopbegin"@ + int_decimal(id) || l == ":endloop"@ + int_decimal(id)) {
        let id = choose|id: int| #![trigger int_decimal(id)] s0.label_counter <= id < s1.label_counter
            && (l == ":loopbegin"@ + int_decimal(id) || l == ":endloop"@ + int_decimal(id));
        assert(t0.label_counter <= id < t1.label_counter);
    } else {
        let n = choose|n: nat| #![trigger nat_decimal(n)] s0.if_counter <= n < s1.if_counter
            && (l == ":"@ + ("iftrue"@ + nat_decimal(n)) || l == ":"@ + ("else"@ + nat_decimal(n))
                || l == ":"@ + ("endif"@ + nat_decimal(n)));
        assert(t0.if_counter <= n < t1.if_counter);
    }
}

proof fn lemma_lines_widen(ls: Seq<Seq<char>>, s0: SState, s1: SState, t0: SState, t1: SState)
    requires
        lines_in(ls, s0, s1),
        counters_le(t0, s0),
        counters_le(s1, t1),
    ensures
        lines_in(ls, t0, t1),
{
    assert forall|k: int| 0 <= k < ls.len() implies line_in(#[trigger] ls[k], t0, t1) by {
        if !plain_line(ls[k]) {
            lemma_label_widen(ls[k], s0, s1, t0, t1);
        }
    }
}

/// Lines drawn in the window `s0..s1` followed by lines drawn in `s2..s3`
/// repeat no label line.
proof fn lemma_concat_lines(a: Seq<Seq<char>>, b: Seq<Seq<char>>, s0: SState, s1: SState, s2: SState, s3: SState)
    requires
        lines_in(a, s0, s1),
        labels_once(a),
        lines_in(b, s2, s3),
        labels_once(b),
        counters_le(s0, s1),
        counters_le(s1, s2),
        counters_le(s2, s3),
    ensures
        lines_in(a + b, s0, s3),
        labels_once(a + b),
{
    lemma_lines_widen(a, s0, s1, s0, s3);
    lemma_lines_widen(b, s2, s3, s0, s3);
    let c = a + b;
    assert forall|k: int| 0 <= k < c.len() implies line_in(#[trigger] c[k], s0, s3) by {
        if k < a.len() {
            assert(c[k] == a[k]);
        } else {
            assert(c[k] == b[k - a.len()]);
        }
    }
    assert forall|x: int, y: int| #![trigger c[x], c[y]] 0 <= x < y < c.len() && c[x] == c[y] implies plain_line(c[x]) by {
        if y < a.len() {
            assert(c[x] == a[x] && c[y] == a[y]);
        } else if x >= a.len() {
            assert(c[x] == b[x - a.len()] && c[y] == b[y - a.len()]);
        } else {
            assert(c[x] == a[x] && c[y] == b[y - a.len()]);
            assert(line_in(a[x], s0, s1));
            assert(line_in(b[y - a.len()], s2, s3));
            if !plain_line(c[x]) {
                lemma_label_disjoint(c[x], s0, s1, s2, s3);
            }
        }
    }
}

proof fn lemma_plain_lines_in(ls: Seq<Seq<char>>, s0: SState, s1: SState)
    requires
        plain_lines(ls),
    ensures
        lines_in(ls, s0, s1),
        labels_once(ls),
{
    assert forall|k: int| 0 <= k < ls.len() implies line_in(#[trigger] ls[k], s0, s1) by {
        assert(plain_line(ls[k]));
    }
    assert forall|x: int, y: int| #![trigger ls[x], ls[y]] 0 <= x < y < ls.len() && ls[x] == ls[y] implies plain_line(ls[x]) by {
        assert(plain_line(ls[x]));
    }
}

/* The IR of statements and blocks */

proof fn lemma_boolean_lines(ts: Seq<SpecToken>, i: int, table: Seq<SFunc>, cf: Seq<char>, st: SState) -> (ls: Seq<Seq<char>>)
    requires
        idents_fit(ts),
    ensures
        spec_boolean(ts, i, table, cf, st).res matches Ok(x) ==> expr_lines(x, ls)
            && temps_once(ls, st.temp_counter, spec_boolean(ts, i, table, cf, st).st.temp_counter)
            && st.temp_counter <= spec_boolean(ts, i, table, cf, st).st.temp_counter
            && no_comma(x.name),
{
    reveal(spec_boolean);
    lemma_lit_facts();
    let ll = lemma_expression_lines(ts, i, table, cf, st);
    let l = spec_expression(ts, i, table, cf, st);
    let lr = lemma_expression_lines(ts, l.idx + 1, table, cf, l.st);
    let r = spec_expression(ts, l.idx + 1, table, cf, l.st);
    if l.res is Ok && comparison_op(ts[l.idx]) is Some && r.res is Ok {
        let op = comparison_op(ts[l.idx])->0;
        let x = l.res->Ok_0;
        let y = r.res->Ok_0;
        let n = r.st.temp_counter;
        lemma_combine_lines(x, y, op, n, ll, lr, st.temp_counter, l.st.temp_counter);
        lemma_temp_name_no_comma(n);
        ll + lr + seq!["%int "@ + temp_name(n), "%"@ + op + " "@ + temp_name(n) + ", "@ + x.name + ", "@ + y.name]
    } else {
        ll
    }
}

proof fn lemma_simple_counters(ts: Seq<SpecToken>, i: int, table: Seq<SFunc>, cf: Seq<char>, st: SState)
    requires
        0 <= i < ts.len(),
        !(ts[i] is If || ts[i] is While),
    ensures
        counters_le(st, spec_statement(ts, i, table, cf, st).st),
{
    reveal_with_fuel(spec_statement, 1);
    lemma_expressions_keep_frame();
    match ts[i] {
        SpecToken::Int => { reveal(spec_declaration); },
        SpecToken::Return => { reveal(spec_return); },
        SpecToken::Print => { reveal(spec_print); },
        SpecToken::Read => { reveal(spec_read); },
        SpecToken::Break => { reveal(spec_break); },
        SpecToken::Continue => { reveal(spec_continue); },
        SpecToken::Ident(_) => { reveal(spec_assignment); },
        _ => {},
    }
}

proof fn lemma_push_fresh(ls: Seq<Seq<char>>, l: Seq<char>, s0: SState, s1: SState)
    requires
        labels_once(ls),
        lines_in(ls, s0, s1),
        line_in(l, s0, s1),
        plain_line(l) || forall|a: int| 0 <= a < ls.len() ==> #[trigger] ls[a] != l,
    ensures
        labels_once(ls.push(l)),
        lines_in(ls.push(l), s0, s1),
{
    let p = ls.push(l);
    assert forall|k: int| 0 <= k < p.len() implies line_in(#[trigger] p[k], s0, s1) by {
        if k < ls.len() {
            assert(p[k] == ls[k]);
        }
    }
    assert forall|x: int, y: int| #![trigger p[x], p[y]] 0 <= x < y < p.len() && p[x] == p[y] implies plain_line(p[x]) by {
        assert(p[x] == ls[x]);
        if y < ls.len() {
            assert(p[y] == ls[y]);
        }
    }
}

/// The lines of a statement: their text is the statement's IR, they lie
/// in the window of the counters it moved, and no label line repeats.
pub open spec fn stmt_lines(code: Seq<char>, ls: Seq<Seq<char>>, s0: SState, s1: SState) -> bool {
    &&& code == unlines(ls)
    &&& lines_in(ls, s0, s1)
    &&& labels_once(ls)
    &&& counters_le(s0, s1)
    &&& temps_once(ls, s0.temp_counter, s1.temp_counter)
    &&& s0.temp_counter <= s1.temp_counter
}

proof fn lemma_statement_lines(ts: Seq<SpecToken>, i: int, table: Seq<SFunc>, cf: Seq<char>, st: SState) -> (ls: Seq<Seq<char>>)
    requires
        idents_fit(ts),
        ts.len() >= 1,
        ts.last() is End,
        loops_no_nl(st.loop_stack),
    ensures
        spec_statement(ts, i, table, cf, st).res matches Ok(code)
            ==> stmt_lines(code, ls, st, spec_statement(ts, i, table, cf, st).st) && jumps_into(ls, ls, st.loop_stack),
    decreases remaining(ts.len(), i), 1nat,
{
    reveal_with_fuel(spec_statement, 1); reveal_with_fuel(spec_block, 1); reveal_with_fuel(spec_while, 1); reveal_with_fuel(spec_if, 1);
    if 0 <= i < ts.len() {
        if ts[i] is If {
            lemma_if_lines(ts, i, table, cf, st)
        } else if ts[i] is While {
            lemma_while_lines(ts, i, table, cf, st)
        } else {
            let ls = lemma_simple_lines(ts, i, table, cf, st);
            lemma_simple_counters(ts, i, table, cf, st);
            if spec_statement(ts, i, table, cf, st).res is Ok {
                lemma_plain_lines_in(ls, st, spec_statement(ts, i, table, cf, st).st);
            }
            ls
        }
    } else {
        seq![]
    }
}

proof fn lemma_block_lines(
    ts: Seq<SpecToken>,
    i: int,
    table: Seq<SFunc>,
    cf: Seq<char>,
    st: SState,
    acc: Seq<char>,
    acc_ls: Seq<Seq<char>>,
    s_pre: SState,
) -> (new: Seq<Seq<char>>)
    requires
        idents_fit(ts),
        ts.len() >= 1,
        ts.last() is End,
        loops_no_nl(st.loop_stack),
        stmt_lines(acc, acc_ls, s_pre, st),
        jumps_into(acc_ls, acc_ls, st.loop_stack),
    ensures
        spec_block(ts, i, table, cf, st, acc).res matches Ok(code) ==> {
            let o = spec_block(ts, i, table, cf, st, acc);
            &&& stmt_lines(code, acc_ls + new, s_pre, o.st)
            &&& jumps_into(acc_ls + new, acc_ls + new, st.loop_stack)
            &&& lines_in(new, st, o.st)
            &&& counters_le(st, o.st)
        },
    decreases remaining(ts.len(), i), 2nat,
{
    reveal_with_fuel(spec_statement, 1); reveal_with_fuel(spec_block, 1); reveal_with_fuel(spec_while, 1); reveal_with_fuel(spec_if, 1);
    let e0 = Seq::<Seq<char>>::empty();
    assert(acc_ls + e0 =~= acc_ls);
    assert(lines_in(e0, st, st));
    if 0 <= i < ts.len() && !(ts[i] is RightCurly) {
        let ls_s = lemma_statement_lines(ts, i, table, cf, st);
        let s = spec_statement(ts, i, table, cf, st);
        if s.res is Ok && s.idx > i {
            law_statement_keeps_loop_stack(ts, i, table, cf, st);
            let c = s.res->Ok_0;
            lemma_unlines_concat(acc_ls, ls_s);
            lemma_concat_lines(acc_ls, ls_s, s_pre, st, st, s.st);
            lemma_within_concat(acc_ls, ls_s);
            lemma_jumps_widen(acc_ls, acc_ls, acc_ls + ls_s, st.loop_stack);
            lemma_jumps_widen(ls_s, ls_s, acc_ls + ls_s, st.loop_stack);
            lemma_jumps_concat(acc_ls, ls_s, acc_ls + ls_s, st.loop_stack);
            let rest = lemma_block_lines(ts, s.idx, s.table, cf, s.st, acc + c, acc_ls + ls_s, s_pre);
            let b = spec_block(ts, s.idx, s.table, cf, s.st, acc + c);
            assert(acc_ls + ls_s + rest =~= acc_ls + (ls_s + rest));
            if b.res is Ok {
                lemma_lines_widen(ls_s, st, s.st, st, b.st);
                lemma_lines_widen(rest, s.st, b.st, st, b.st);
                lemma_lines_in_concat(ls_s, rest, st, b.st);
            }
            ls_s + rest
        } else {
            e0
        }
    } else {
        e0
    }
}

#[verifier::rlimit(100)]
proof fn lemma_while_lines(ts: Seq<SpecToken>, i: int, table: Seq<SFunc>, cf: Seq<char>, st: SState) -> (ls: Seq<Seq<char>>)
    requires
        idents_fit(ts),
        ts.len() >= 1,
        ts.last() is End,
        loops_no_nl(st.loop_stack),
    ensures
        spec_while(ts, i, table, cf, st).res matches Ok(code)
            ==> stmt_lines(code, ls, st, spec_while(ts, i, table, cf, st).st) && jumps_into(ls, ls, st.loop_stack),
    decreases remaining(ts.len(), i), 0nat,
{
    reveal_with_fuel(spec_statement, 1); reveal_with_fuel(spec_block, 1); reveal_with_fuel(spec_while, 1); reveal_with_fuel(spec_if, 1);
    lemma_expressions_keep_frame();
    lemma_lit_facts();
    lemma_lit_facts2();
    let e0 = Seq::<Seq<char>>::empty();
    if 0 <= i < ts.len() && ts[i] is While {
        let id = st.label_counter;
        let begin = ":loopbegin"@ + int_decimal(id);
        let end = ":endloop"@ + int_decimal(id);
        let st1 = SState { label_counter: id + 1, loop_stack: st.loop_stack.push(SLoop { begin, end }), ..st };
        let lc = lemma_boolean_lines(ts, i + 1, table, cf, st1);
        let c = spec_boolean(ts, i + 1, table, cf, st1);
        if c.res is Ok && c.idx >= i && ts[c.idx] is LeftCurly {
            let cond = c.res->Ok_0;
            reveal_strlit(":loopbegin");
            reveal_strlit(":endloop");
            reveal_strlit("%branch_ifn ");
            reveal_strlit("%jmp ");
            lemma_int_decimal_no_nl(id);
            lemma_no_nl_add(":loopbegin"@, int_decimal(id));
            lemma_no_nl_add(":endloop"@, int_decimal(id));
            lemma_label_chars(id, 0);
            // the lines before the body
            assert(label_in(begin, st, st1));
            assert(label_in(end, st, st1));
            let head = seq![begin];
            lemma_unlines_one(begin);
            assert(lines_in(head, st, st1));
            assert(labels_once(head));
            lemma_plain_lines_in(lc, st1, st1);
            lemma_concat_lines(head, lc, st, st1, st1, st1);
            lemma_unlines_concat(head, lc);
            lemma_no_nl3(cond.name, ", "@, end);
            lemma_add_instr(unlines(head + lc), head + lc, "%branch_ifn "@, cond.name + ", "@ + end);
            let branch = "%branch_ifn "@ + (cond.name + ", "@ + end);
            let acc_ls = (head + lc).push(branch);
            lemma_push_fresh(head + lc, branch, st, st1);
            let code = begin + "\n"@ + cond.code + "%branch_ifn "@ + cond.name + ", "@ + end + "\n"@;
            assert(code =~= unlines(head + lc) + branch + seq!['\n']);
            assert(loops_no_nl(c.st.loop_stack));
            lemma_lines_widen(acc_ls, st, st1, st, c.st);
            // no temporary is declared twice
            lemma_temps_empty(st.temp_counter, st.temp_counter);
            lemma_not_temp(begin);
            lemma_temps_push_free(Seq::<Seq<char>>::empty(), begin, st.temp_counter, st.temp_counter);
            assert(Seq::<Seq<char>>::empty().push(begin) =~= head);
            lemma_temps_concat(head, lc, st.temp_counter, st.temp_counter, c.st.temp_counter);
            assert(branch[1] == 'b');
            lemma_not_temp(branch);
            lemma_temps_push_free(head + lc, branch, st.temp_counter, c.st.temp_counter);
            // the jumps before the body: the branch goes to the end label
            lemma_jump_chars();
            lemma_label_chars(id, 0);
            lemma_no_jump(begin);
            lemma_jumps_push(Seq::<Seq<char>>::empty(), begin, acc_ls, c.st.loop_stack);
            lemma_jumps_none(lc, acc_ls, c.st.loop_stack);
            lemma_jumps_concat(head, lc, acc_ls, c.st.loop_stack);
            lemma_branch_target("%branch_ifn "@, cond.name, end);
            assert(branch == "%branch_ifn "@ + cond.name + ", "@ + end);
            assert(c.st.loop_stack[c.st.loop_stack.len() - 1] == SLoop { begin, end });
            assert(in_stack(end, c.st.loop_stack));
            lemma_jumps_push(head + lc, branch, acc_ls, c.st.loop_stack);
            let body = lemma_block_lines(ts, c.idx + 1, table, cf, c.st, code, acc_ls, st);
            let b = spec_block(ts, c.idx + 1, table, cf, c.st, code);
            if b.res is Ok && ts[b.idx] is RightCurly {
                let all = acc_ls + body;
                let j = "%jmp "@ + begin;
                lemma_add_instr(unlines(all), all, "%jmp "@, begin);
                lemma_push_fresh(all, j, st, b.st);
                let all2 = all.push(j);
                // the end label appears nowhere before
                assert forall|a: int| 0 <= a < all2.len() implies #[trigger] all2[a] != end by {
                    if a < acc_ls.len() {
                        assert(all2[a] == acc_ls[a]);
                        if a == 0 {
                            assert(acc_ls[0] == begin);
                        } else {
                            assert(line_in(acc_ls[a], st, st1));
                            if all2[a] == end {
                                lemma_label_not_plain(end, st, st1);
                            }
                        }
                    } else if a < all.len() {
                        assert(all2[a] == body[a - acc_ls.len()]);
                        assert(line_in(body[a - acc_ls.len()], c.st, b.st));
                        if all2[a] == end {
                            lemma_label_not_plain(end, st, st1);
                            lemma_label_disjoint(end, st, st1, c.st, b.st);
                        }
                    } else {
                        assert(all2[a] == j);
                        assert(j[0] == '%');
                    }
                }
                let o = spec_while(ts, i, table, cf, st);
                lemma_lines_widen(all2, st, b.st, st, o.st);
                assert(line_in(end, st, o.st)) by {
                    lemma_label_widen(end, st, st1, st, o.st);
                }
                lemma_push_fresh(all2, end, st, o.st);
                assert(all2.push(end).drop_last() =~= all2);
                assert(j[1] == 'j');
                lemma_not_temp(j);
                lemma_temps_push_free(all, j, st.temp_counter, b.st.temp_counter);
                lemma_not_temp(end);
                lemma_temps_push_free(all2, end, st.temp_counter, b.st.temp_counter);
                // the jumps: the body's and those to the loop's own labels
                let w = all2.push(end);
                lemma_within_push(all, j);
                lemma_within_push(all2, end);
                lemma_within_trans(all, all2, w);
                lemma_jumps_widen(all, all, w, c.st.loop_stack);
                lemma_jmp_target(begin);
                assert(all[0] == begin);
                assert(all.contains(begin));
                assert(w.contains(begin));
                lemma_jumps_push(all, j, w, c.st.loop_stack);
                lemma_no_jump(end);
                lemma_jumps_push(all2, end, w, c.st.loop_stack);
                assert(c.st.loop_stack == st.loop_stack.push(SLoop { begin, end }));
                lemma_jumps_pop(w, w, st.loop_stack, SLoop { begin, end });
                let bc = b.res->Ok_0;
                assert(bc + "%jmp "@ + begin + "\n"@ + end + "\n"@ =~= unlines(all2) + end + seq!['\n']);
                all2.push(end)
            } else {
                e0
            }
        } else {
            e0
        }
    } else {
        e0
    }
}

proof fn lemma_if_lit_facts(n: nat)
    ensures
        no_nl("%branch_if "@), "%branch_if "@.len() > 0, "%branch_if "@[0] == '%',
        no_nl("%jmp :"@), "%jmp :"@.len() > 0, "%jmp :"@[0] == '%',
        no_nl(", :"@),
        no_nl("iftrue"@ + nat_decimal(n)),
        no_nl("else"@ + nat_decimal(n)),
        no_nl("endif"@ + nat_decimal(n)),
        no_nl(":"@ + ("iftrue"@ + nat_decimal(n))),
        no_nl(":"@ + ("else"@ + nat_decimal(n))),
        no_nl(":"@ + ("endif"@ + nat_decimal(n))),
{
    reveal_strlit("%branch_if ");
    reveal_strlit("%jmp :");
    reveal_strlit(", :");
    reveal_strlit(":");
    reveal_strlit("iftrue");
    reveal_strlit("else");
    reveal_strlit("endif");
    lemma_nat_decimal_no_nl(n);
    lemma_no_nl_add("iftrue"@, nat_decimal(n));
    lemma_no_nl_add("else"@, nat_decimal(n));
    lemma_no_nl_add("endif"@, nat_decimal(n));
    lemma_no_nl_add(":"@, "iftrue"@ + nat_decimal(n));
    lemma_no_nl_add(":"@, "else"@ + nat_decimal(n));
    lemma_no_nl_add(":"@, "endif"@ + nat_decimal(n));
}

/// The line `l`, a label drawn in `w0..w1`, differs from every line of
/// `ls`: lines of `ls` are instruction lines, labels of another kind
/// (listed in `others`), or labels drawn in a window after `w1`.
proof fn lemma_label_fresh_in(ls: Seq<Seq<char>>, l: Seq<char>, w0: SState, w1: SState, others: Seq<Seq<char>>, s2: SState, s3: SState)
    requires
        label_in(l, w0, w1),
        counters_le(w1, s2),
        forall|k: int| 0 <= k < others.len() ==> #[trigger] others[k] != l,
        forall|a: int| 0 <= a < ls.len() ==> plain_line(#[trigger] ls[a]) || others.contains(ls[a]) || label_in(ls[a], s2, s3),
    ensures
        forall|a: int| 0 <= a < ls.len() ==> #[trigger] ls[a] != l,
{
    assert forall|a: int| 0 <= a < ls.len() implies #[trigger] ls[a] != l by {
        if ls[a] == l {
            lemma_label_not_plain(l, w0, w1);
            lemma_label_disjoint(l, w0, w1, s2, s3);
            if others.contains(ls[a]) {
                let k = choose|k: int| 0 <= k < others.len() && others[k] == ls[a];
                assert(others[k] != l);
            }
        }
    }
}

#[verifier::rlimit(100)]
proof fn lemma_if_lines(ts: Seq<SpecToken>, i: int, table: Seq<SFunc>, cf: Seq<char>, st: SState) -> (ls: Seq<Seq<char>>)
    requires
        idents_fit(ts),
        ts.len() >= 1,
        ts.last() is End,
        loops_no_nl(st.loop_stack),
    ensures
        spec_if(ts, i, table, cf, st).res matches Ok(code)
            ==> stmt_lines(code, ls, st, spec_if(ts, i, table, cf, st).st) && jumps_into(ls, ls, st.loop_stack),
    decreases remaining(ts.len(), i), 0nat,
{
    reveal_with_fuel(spec_statement, 1); reveal_with_fuel(spec_block, 1); reveal_with_fuel(spec_while, 1); reveal_with_fuel(spec_if, 1);
    lemma_expressions_keep_frame();
    lemma_lit_facts();
    lemma_lit_facts2();
    let e0 = Seq::<Seq<char>>::empty();
    if 0 <= i < ts.len() && ts[i] is If {
        let lc = lemma_boolean_lines(ts, i + 1, table, cf, st);
        let c = spec_boolean(ts, i + 1, table, cf, st);
        if c.res is Ok && c.idx >= i && ts[c.idx] is LeftCurly {
            let cond = c.res->Ok_0;
            let n = c.st.if_counter;
            let if_label = "iftrue"@ + nat_decimal(n);
            let else_label = "else"@ + nat_decimal(n);
            let end_label = "endif"@ + nat_decimal(n);
            let st1 = SState { if_counter: n + 1, ..c.st };
            lemma_if_lit_facts(n);
            lemma_label_chars(0, n);
            let t_line = ":"@ + if_label;
            let el_line = ":"@ + else_label;
            let e_line = ":"@ + end_label;
            assert(label_in(t_line, c.st, st1));
            assert(label_in(el_line, c.st, st1));
            assert(label_in(e_line, c.st, st1));
            assert(counters_le(st, c.st));
            lemma_label_widen(t_line, c.st, st1, st, st1);
            lemma_label_widen(el_line, c.st, st1, st, st1);
            // the condition and its branch
            lemma_no_nl3(cond.name, ", :"@, if_label);
            lemma_add_instr(cond.code, lc, "%branch_if "@, cond.name + ", :"@ + if_label);
            let ir_ls = lc.push("%branch_if "@ + (cond.name + ", :"@ + if_label));
            let ir = cond.code + "%branch_if "@ + cond.name + ", :"@ + if_label + "\n"@;
            reveal_strlit("%branch_if ");
            reveal_strlit("%jmp :");
            assert(("%branch_if "@ + (cond.name + ", :"@ + if_label))[1] == 'b');
            lemma_not_temp("%branch_if "@ + (cond.name + ", :"@ + if_label));
            lemma_temps_push_free(lc, "%branch_if "@ + (cond.name + ", :"@ + if_label), st.temp_counter, c.st.temp_counter);
            lemma_not_temp(t_line);
            lemma_not_temp(el_line);
            lemma_not_temp(e_line);
            assert(("%jmp :"@ + else_label)[1] == 'j');
            assert(("%jmp :"@ + end_label)[1] == 'j');
            lemma_not_temp("%jmp :"@ + else_label);
            lemma_not_temp("%jmp :"@ + end_label);
            assert(ir =~= cond.code + ("%branch_if "@ + (cond.name + ", :"@ + if_label)) + seq!['\n']);
            let lb = lemma_block_lines(ts, c.idx + 1, table, cf, st1, seq![], e0, st1);
            let b = spec_block(ts, c.idx + 1, table, cf, st1, seq![]);
            assert(e0 + lb =~= lb);
            if b.res is Ok && ts[b.idx] is RightCurly && b.idx >= i {
                let body = b.res->Ok_0;
                let j = b.idx + 1;
                if ts[j] is Else {
                    lemma_add_instr(ir, ir_ls, "%jmp :"@, else_label);
                    let x1 = ir_ls.push("%jmp :"@ + else_label);
                    lemma_temps_push_free(ir_ls, "%jmp :"@ + else_label, st.temp_counter, c.st.temp_counter);
                    lemma_temps_push_free(x1, t_line, st.temp_counter, c.st.temp_counter);
                    lemma_plain_lines_in(x1, st, st1);
                    lemma_push_fresh(x1, t_line, st, st1);
                    let x2 = x1.push(t_line);
                    assert(x2.drop_last() =~= x1);
                    lemma_unlines_concat(x2, lb);
                    lemma_concat_lines(x2, lb, st, st1, st1, b.st);
                    let x3 = x2 + lb;
                    lemma_temps_concat(x2, lb, st.temp_counter, c.st.temp_counter, b.st.temp_counter);
                    lemma_temps_push_free(x3, "%jmp :"@ + end_label, st.temp_counter, b.st.temp_counter);
                    lemma_add_instr(unlines(x3), x3, "%jmp :"@, end_label);
                    lemma_push_fresh(x3, "%jmp :"@ + end_label, st, b.st);
                    let x4 = x3.push("%jmp :"@ + end_label);
                    lemma_label_widen(el_line, c.st, st1, st, b.st);
                    assert forall|a: int| 0 <= a < x4.len() implies plain_line(#[trigger] x4[a]) || seq![t_line].contains(x4[a]) || label_in(x4[a], st1, b.st) by {
                        if a < x1.len() {
                            assert(x4[a] == x1[a]);
                        } else if a == x1.len() {
                            assert(x4[a] == t_line);
                            assert(seq![t_line][0] == t_line);
                        } else if a < x3.len() {
                            assert(x4[a] == lb[a - x2.len()]);
                            assert(line_in(lb[a - x2.len()], st1, b.st));
                        }
                    }
                    lemma_label_fresh_in(x4, el_line, c.st, st1, seq![t_line], st1, b.st);
                    lemma_push_fresh(x4, el_line, st, b.st);
                    let x5 = x4.push(el_line);
                    lemma_temps_push_free(x4, el_line, st.temp_counter, b.st.temp_counter);
                    assert(x5.drop_last() =~= x4);
                    let k = j + 1;
                    crate::parser::laws::law_block_keeps_loop_stack(ts, c.idx + 1, table, cf, st1, seq![]);
                    if ts[k] is LeftCurly {
                        let le = lemma_block_lines(ts, k + 1, b.table, cf, b.st, seq![], e0, b.st);
                        let e = spec_block(ts, k + 1, b.table, cf, b.st, seq![]);
                        assert(e0 + le =~= le);
                        if e.res is Ok && ts[e.idx] is RightCurly {
                            let else_body = e.res->Ok_0;
                            lemma_unlines_concat(x5, le);
                            lemma_concat_lines(x5, le, st, b.st, b.st, e.st);
                            let x6 = x5 + le;
                            lemma_temps_concat(x5, le, st.temp_counter, b.st.temp_counter, e.st.temp_counter);
                            lemma_label_widen(e_line, c.st, st1, st, e.st);
                            assert forall|a: int| 0 <= a < x6.len() implies plain_line(#[trigger] x6[a]) || seq![t_line, el_line].contains(x6[a]) || label_in(x6[a], st1, e.st) by {
                                if a < x1.len() {
                                    assert(x6[a] == x1[a]);
                                } else if a == x1.len() {
                                    assert(x6[a] == t_line);
                                    assert(seq![t_line, el_line][0] == t_line);
                                } else if a < x3.len() {
                                    assert(x6[a] == lb[a - x2.len()]);
                                    assert(line_in(lb[a - x2.len()], st1, b.st));
                                    if !plain_line(x6[a]) {
                                        lemma_label_widen(x6[a], st1, b.st, st1, e.st);
                                    }
                                } else if a == x3.len() {
                                    assert(x6[a] == "%jmp :"@ + end_label);
                                } else if a == x4.len() {
                                    assert(x6[a] == el_line);
                                    assert(seq![t_line, el_line][1] == el_line);
                                } else {
                                    assert(x6[a] == le[a - x5.len()]);
                                    assert(line_in(le[a - x5.len()], b.st, e.st));
                                    if !plain_line(x6[a]) {
                                        lemma_label_widen(x6[a], b.st, e.st, st1, e.st);
                                    }
                                }
                            }
                            lemma_label_fresh_in(x6, e_line, c.st, st1, seq![t_line, el_line], st1, e.st);
                            lemma_push_fresh(x6, e_line, st, e.st);
                            let x7 = x6.push(e_line);
                            lemma_temps_push_free(x6, e_line, st.temp_counter, e.st.temp_counter);
                            assert(x7.drop_last() =~= x6);
                            let ir2 = ir + "%jmp :"@ + else_label + "\n"@;
                            let res = ir2 + ":"@ + if_label + "\n"@ + body + "%jmp :"@ + end_label + "\n"@ + ":"@
                                + else_label + "\n"@ + else_body + ":"@ + end_label + "\n"@;
                            assert(res =~= unlines(x7));
                            // the jumps
                            lemma_jump_chars();
                            let stk = st.loop_stack;
                            crate::parser::laws::law_block_keeps_loop_stack(ts, c.idx + 1, table, cf, st1, seq![]);
                            assert(st1.loop_stack == stk);
                            assert(b.st.loop_stack == stk);
                            lemma_within_push(ir_ls, "%jmp :"@ + else_label);
                            lemma_within_push(x1, t_line);
                            lemma_within_concat(x2, lb);
                            lemma_within_push(x3, "%jmp :"@ + end_label);
                            lemma_within_push(x4, el_line);
                            lemma_within_concat(x5, le);
                            lemma_within_push(x6, e_line);
                            lemma_within_trans(x2, x3, x4);
                            lemma_within_trans(x2, x4, x5);
                            lemma_within_trans(x2, x5, x6);
                            lemma_within_trans(x2, x6, x7);
                            lemma_within_trans(x3, x4, x5);
                            lemma_within_trans(x3, x5, x6);
                            lemma_within_trans(x3, x6, x7);
                            lemma_within_trans(x5, x6, x7);
                            lemma_within_trans(lb, x3, x7);
                            lemma_within_trans(le, x6, x7);
                            assert(x7.contains(t_line));
                            assert(x7.contains(el_line));
                            assert(x7.contains(e_line));
                            lemma_jumps_none(lc, x7, stk);
                            lemma_branch_target("%branch_if "@, cond.name, t_line);
                            assert("%branch_if "@ + (cond.name + ", :"@ + if_label) =~= "%branch_if "@ + cond.name + ", "@ + t_line);
                            lemma_jumps_push(lc, "%branch_if "@ + (cond.name + ", :"@ + if_label), x7, stk);
                            lemma_jmp_target(el_line);
                            assert("%jmp :"@ + else_label =~= "%jmp "@ + el_line);
                            lemma_jumps_push(ir_ls, "%jmp :"@ + else_label, x7, stk);
                            lemma_no_jump(t_line);
                            lemma_jumps_push(x1, t_line, x7, stk);
                            lemma_jumps_widen(lb, lb, x7, stk);
                            lemma_jumps_concat(x2, lb, x7, stk);
                            lemma_jmp_target(e_line);
                            assert("%jmp :"@ + end_label =~= "%jmp "@ + e_line);
                            lemma_jumps_push(x3, "%jmp :"@ + end_label, x7, stk);
                            lemma_no_jump(el_line);
                            lemma_jumps_push(x4, el_line, x7, stk);
                            lemma_jumps_widen(le, le, x7, stk);
                            lemma_jumps_concat(x5, le, x7, stk);
                            lemma_no_jump(e_line);
                            lemma_jumps_push(x6, e_line, x7, stk);
                            x7
                        } else {
                            e0
                        }
                    } else {
                        e0
                    }
                } else {
                    lemma_add_instr(ir, ir_ls, "%jmp :"@, end_label);
                    let x1 = ir_ls.push("%jmp :"@ + end_label);
                    lemma_temps_push_free(ir_ls, "%jmp :"@ + end_label, st.temp_counter, c.st.temp_counter);
                    lemma_temps_push_free(x1, t_line, st.temp_counter, c.st.temp_counter);
                    lemma_plain_lines_in(x1, st, st1);
                    lemma_push_fresh(x1, t_line, st, st1);
                    let x2 = x1.push(t_line);
                    assert(x2.drop_last() =~= x1);
                    lemma_unlines_concat(x2, lb);
                    lemma_concat_lines(x2, lb, st, st1, st1, b.st);
                    let x3 = x2 + lb;
                    lemma_temps_concat(x2, lb, st.temp_counter, c.st.temp_counter, b.st.temp_counter);
                    lemma_label_widen(e_line, c.st, st1, st, b.st);
                    assert forall|a: int| 0 <= a < x3.len() implies plain_line(#[trigger] x3[a]) || seq![t_line].contains(x3[a]) || label_in(x3[a], st1, b.st) by {
                        if a < x1.len() {
                            assert(x3[a] == x1[a]);
                        } else if a == x1.len() {
                            assert(x3[a] == t_line);
                            assert(seq![t_line][0] == t_line);
                        } else {
                            assert(x3[a] == lb[a - x2.len()]);
                            assert(line_in(lb[a - x2.len()], st1, b.st));
                        }
                    }
                    lemma_label_fresh_in(x3, e_line, c.st, st1, seq![t_line], st1, b.st);
                    lemma_push_fresh(x3, e_line, st, b.st);
                    let x4 = x3.push(e_line);
                    lemma_temps_push_free(x3, e_line, st.temp_counter, b.st.temp_counter);
                    assert(x4.drop_last() =~= x3);
                    let res = ir + "%jmp :"@ + end_label + "\n"@ + ":"@ + if_label + "\n"@ + body + ":"@ + end_label + "\n"@;
                    assert(res =~= unlines(x4));
                    // the jumps
                    lemma_jump_chars();
                    let stk = st.loop_stack;
                    assert(st1.loop_stack == stk);
                    lemma_within_push(ir_ls, "%jmp :"@ + end_label);
                    lemma_within_push(x1, t_line);
                    lemma_within_concat(x2, lb);
                    lemma_within_push(x3, e_line);
                    lemma_within_trans(x2, x3, x4);
                    lemma_within_trans(lb, x3, x4);
                    assert(x4.contains(t_line));
                    assert(x4.contains(e_line));
                    lemma_jumps_none(lc, x4, stk);
                    lemma_branch_target("%branch_if "@, cond.name, t_line);
                    assert("%branch_if "@ + (cond.name + ", :"@ + if_label) =~= "%branch_if "@ + cond.name + ", "@ + t_line);
                    lemma_jumps_push(lc, "%branch_if "@ + (cond.name + ", :"@ + if_label), x4, stk);
                    lemma_jmp_target(e_line);
                    assert("%jmp :"@ + end_label =~= "%jmp "@ + e_line);
                    lemma_jumps_push(ir_ls, "%jmp :"@ + end_label, x4, stk);
                    lemma_no_jump(t_line);
                    lemma_jumps_push(x1, t_line, x4, stk);
                    lemma_jumps_widen(lb, lb, x4, stk);
                    lemma_jumps_concat(x2, lb, x4, stk);
                    lemma_no_jump(e_line);
                    lemma_jumps_push(x3, e_line, x4, stk);
                    x4
                }
            } else {
                e0
            }
        } else {
            e0
        }
    } else {
        e0
    }
}

/* The IR of functions and programs */

proof fn lemma_one_param_no_nl(ts: Seq<SpecToken>, i: int, table: Seq<SFunc>, fname: Seq<char>, params: Seq<Seq<char>>)
    requires
        idents_fit(ts),
        ts.len() >= 1,
        ts.last() is End,
        0 <= i < ts.len(),
        all_no_nl(params),
    ensures
        spec_one_param(ts, i, table, fname, params).res matches Ok(ps) ==> all_no_nl(ps),
{
    reveal(spec_one_param);
    lemma_lit_facts();
    if ts[i] is Int {
        assert(i + 1 < ts.len());
        if ts[i + 1] is Ident {
            let name = ts[i + 1]->Ident_0;
            lemma_no_nl_add("%int "@, name);
            let ps = params.push("%int "@ + name);
            assert forall|k: int| 0 <= k < ps.len() implies no_nl(#[trigger] ps[k]) by {
                if k < params.len() {
                    assert(ps[k] == params[k]);
                }
            }
        }
    }
}

proof fn lemma_more_params_no_nl(ts: Seq<SpecToken>, i: int, table: Seq<SFunc>, fname: Seq<char>, params: Seq<Seq<char>>)
    requires
        idents_fit(ts),
        ts.len() >= 1,
        ts.last() is End,
        all_no_nl(params),
    ensures
        spec_more_params(ts, i, table, fname, params).res matches Ok(ps) ==> all_no_nl(ps),
    decreases remaining(ts.len(), i),
{
    reveal_with_fuel(spec_more_params, 1);
    if 0 <= i < ts.len() && ts[i] is Comma {
        assert(i + 1 < ts.len());
        lemma_one_param_no_nl(ts, i + 1, table, fname, params);
        let p = spec_one_param(ts, i + 1, table, fname, params);
        if p.res is Ok && p.idx > i {
            lemma_more_params_no_nl(ts, p.idx, p.table, fname, p.res->Ok_0);
        }
    }
}

#[verifier::rlimit(60)]
proof fn lemma_function_lines(ts: Seq<SpecToken>, i: int, table: Seq<SFunc>, st: SState) -> (ls: Seq<Seq<char>>)
    requires
        idents_fit(ts),
        ts.len() >= 1,
        ts.last() is End,
        loops_no_nl(st.loop_stack),
        0 <= i < ts.len(),
    ensures
        spec_function(ts, i, table, st).res matches Ok(code) ==> stmt_lines(code, ls, st, spec_function(ts, i, table, st).st)
            && jumps_into(ls, ls, st.loop_stack),
{
    reveal(spec_function);
    reveal(spec_params);
    lemma_lit_facts();
    let e0 = Seq::<Seq<char>>::empty();
    if ts[i] is Func {
        assert(i + 1 < ts.len());
        if ts[i + 1] is Ident {
            let name = ts[i + 1]->Ident_0;
            assert(i + 2 < ts.len());
            let t1 = crate::parser::program::spec_add_function(table, name).1;
            if ts[i + 2] is LeftParen {
                assert(i + 3 < ts.len());
                let p = spec_params(ts, i + 3, t1, name);
                if !(ts[i + 3] is RightParen) {
                    lemma_one_param_no_nl(ts, i + 3, t1, name, seq![]);
                    let p1 = spec_one_param(ts, i + 3, t1, name, seq![]);
                    if p1.res is Ok {
                        lemma_more_params_no_nl(ts, p1.idx, p1.table, name, p1.res->Ok_0);
                    }
                }
                if p.res is Ok && ts[p.idx] is RightParen && ts[p.idx + 1] is LeftCurly {
                    let params = p.res->Ok_0;
                    reveal_strlit("%func ");
                    reveal_strlit(", ");
                    reveal_strlit("%endfunc");
                    reveal_strlit("%endfunc\n");
                    lemma_join_no_nl(params, ", "@);
                    lemma_no_nl3(name, "("@, join(params, ", "@));
                    lemma_no_nl_add(name + "("@ + join(params, ", "@), ")"@);
                    let rest = name + "("@ + join(params, ", "@) + ")"@;
                    lemma_add_instr(seq![], e0, "%func "@, rest);
                    let hl = e0.push("%func "@ + rest);
                    let header = "%func "@ + name + "("@ + join(params, ", "@) + ")\n"@;
                    assert(header =~= Seq::<char>::empty() + ("%func "@ + rest) + seq!['\n']);
                    assert(plain_lines(hl));
                    lemma_plain_lines_in(hl, st, st);
                    lemma_temps_empty(st.temp_counter, st.temp_counter);
                    assert(("%func "@ + rest)[1] == 'f');
                    lemma_not_temp("%func "@ + rest);
                    lemma_temps_push_free(e0, "%func "@ + rest, st.temp_counter, st.temp_counter);
                    lemma_no_jump("%func "@ + rest);
                    lemma_jumps_push(e0, "%func "@ + rest, hl, st.loop_stack);
                    let body = lemma_block_lines(ts, p.idx + 2, p.table, name, st, header, hl, st);
                    let b = spec_block(ts, p.idx + 2, p.table, name, st, header);
                    if b.res is Ok && ts[b.idx] is RightCurly {
                        let all = hl + body;
                        lemma_add_instr(unlines(all), all, "%endfunc"@, seq![]);
                        assert("%endfunc"@ + Seq::<char>::empty() =~= "%endfunc"@);
                        lemma_push_fresh(all, "%endfunc"@, st, b.st);
                        assert("%endfunc"@[1] == 'e');
                        lemma_not_temp("%endfunc"@);
                        lemma_temps_push_free(all, "%endfunc"@, st.temp_counter, b.st.temp_counter);
                        lemma_within_push(all, "%endfunc"@);
                        lemma_jumps_widen(all, all, all.push("%endfunc"@), st.loop_stack);
                        lemma_no_jump("%endfunc"@);
                        lemma_jumps_push(all, "%endfunc"@, all.push("%endfunc"@), st.loop_stack);
                        assert(b.res->Ok_0 + "%endfunc\n"@ =~= unlines(all) + ("%endfunc"@ + Seq::<char>::empty()) + seq!['\n']);
                        all.push("%endfunc"@)
                    } else {
                        e0
                    }
                } else {
                    e0
                }
            } else {
                e0
            }
        } else {
            e0
        }
    } else {
        e0
    }
}

proof fn lemma_functions_lines(
    ts: Seq<SpecToken>,
    i: int,
    table: Seq<SFunc>,
    st: SState,
    acc: Seq<char>,
    acc_ls: Seq<Seq<char>>,
    s_pre: SState,
) -> (new: Seq<Seq<char>>)
    requires
        idents_fit(ts),
        ts.len() >= 1,
        ts.last() is End,
        loops_no_nl(st.loop_stack),
        stmt_lines(acc, acc_ls, s_pre, st),
        jumps_into(acc_ls, acc_ls, st.loop_stack),
    ensures
        spec_functions(ts, i, table, st, acc).res matches Ok(code)
            ==> stmt_lines(code, acc_ls + new, s_pre, spec_functions(ts, i, table, st, acc).st)
            && jumps_into(acc_ls + new, acc_ls + new, st.loop_stack),
    decreases remaining(ts.len(), i),
{
    reveal_with_fuel(spec_functions, 1);
    let e0 = Seq::<Seq<char>>::empty();
    assert(acc_ls + e0 =~= acc_ls);
    if 0 <= i < ts.len() && !(ts[i] is End) {
        let lf = lemma_function_lines(ts, i, table, st);
        let f = spec_function(ts, i, table, st);
        if f.res is Ok && f.idx > i {
            crate::parser::laws::law_functions_keep_loop_stack(ts, i, table, st, acc);
            let c = f.res->Ok_0;
            lemma_unlines_concat(acc_ls, lf);
            lemma_concat_lines(acc_ls, lf, s_pre, st, st, f.st);
            lemma_temps_concat(acc_ls, lf, s_pre.temp_counter, st.temp_counter, f.st.temp_counter);
            lemma_within_concat(acc_ls, lf);
            lemma_jumps_widen(acc_ls, acc_ls, acc_ls + lf, st.loop_stack);
            lemma_jumps_widen(lf, lf, acc_ls + lf, st.loop_stack);
            lemma_jumps_concat(acc_ls, lf, acc_ls + lf, st.loop_stack);
            let rest = lemma_functions_lines(ts, f.idx, f.table, f.st, acc + c, acc_ls + lf, s_pre);
            assert(acc_ls + lf + rest =~= acc_ls + (lf + rest));
            lf + rest
        } else {
            e0
        }
    } else {
        e0
    }
}

/// The IR of an accepted program, from a token stream that ends with
/// `End` and whose identifiers hold no newline and do not begin with `_`,
/// splits into lines: each line holds no newline and begins with `%` (an
/// instruction) or `:` (a label); no label line occurs twice; no
/// temporary is declared twice (no line `%int _tempN` occurs twice); and
/// every jump (`%jmp L`, `%branch_if t, L`, `%branch_ifn t, L`) names a
/// line `L` of the IR. (`law_function_jumps_resolved` places that line in
/// the jump's own function.)
pub proof fn law_program_ir_lines(ts: Seq<SpecToken>, i: int)
    requires
        idents_fit(ts),
        ts.len() >= 1,
        ts.last() is End,
    ensures
        spec_program(ts, i).res matches Ok(ir) ==> exists|ls: Seq<Seq<char>>| {
            &&& ir == unlines(ls)
            &&& forall|k: int| 0 <= k < ls.len() ==> no_nl(#[trigger] ls[k]) && ls[k].len() > 0
                && (ls[k][0] == '%' || ls[k][0] == ':')
            &&& forall|a: int, b: int| #![trigger ls[a], ls[b]] 0 <= a < b < ls.len() && ls[a] == ls[b] ==> ls[a][0] == '%'
            &&& forall|a: int, b: int, n: nat| #![trigger ls[a], ls[b], temp_name(n)]
                0 <= a < b < ls.len() && ls[a] == "%int "@ + temp_name(n) ==> ls[b] != ls[a]
            &&& forall|k: int, x: Seq<char>| 0 <= k < ls.len() && #[trigger] jump_to(ls[k], x) ==> ls.contains(x)
        },
{
    reveal(spec_program);
    let st0 = crate::parser::program::initial_state();
    let e0 = Seq::<Seq<char>>::empty();
    assert(unlines(e0) =~= Seq::<char>::empty());
    assert(lines_in(e0, st0, st0));
    assert(labels_once(e0));
    assert(loops_no_nl(st0.loop_stack));
    let ls = lemma_functions_lines(ts, i, seq![], st0, seq![], e0, st0);
    let o = spec_functions(ts, i, seq![], st0, seq![]);
    if spec_program(ts, i).res is Ok {
        let full = e0 + ls;
        assert forall|k: int| 0 <= k < full.len() implies no_nl(#[trigger] full[k]) && full[k].len() > 0
            && (full[k][0] == '%' || full[k][0] == ':') by {
            assert(line_in(full[k], st0, o.st));
            if !plain_line(full[k]) {
                lemma_label_chars(0, 0);
                let l = full[k];
                if exists|id: int| #![trigger int_decimal(id)] st0.label_counter <= id < o.st.label_counter
                    && (l == ":loopbegin"@ + int_decimal(id) || l == ":endloop"@ + int_decimal(id)) {
                    let id = choose|id: int| #![trigger int_decimal(id)] st0.label_counter <= id < o.st.label_counter
                        && (l == ":loopbegin"@ + int_decimal(id) || l == ":endloop"@ + int_decimal(id));
                    lemma_label_chars(id, 0);
                } else {
                    let n = choose|n: nat| #![trigger nat_decimal(n)] st0.if_counter <= n < o.st.if_counter
                        && (l == ":"@ + ("iftrue"@ + nat_decimal(n)) || l == ":"@ + ("else"@ + nat_decimal(n))
                            || l == ":"@ + ("endif"@ + nat_decimal(n)));
                    lemma_label_chars(0, n);
                }
            }
        }
        assert forall|a: int, b: int| #![trigger full[a], full[b]] 0 <= a < b < full.len() && full[a] == full[b] implies full[a][0] == '%' by {
            assert(plain_line(full[a]));
        }
        assert forall|a: int, b: int, n: nat| #![trigger full[a], full[b], temp_name(n)]
            0 <= a < b < full.len() && full[a] == "%int "@ + temp_name(n) implies full[b] != full[a] by {
            assert(full[a] == temp_line(n));
        }
        assert forall|k: int, x: Seq<char>| 0 <= k < full.len() && #[trigger] jump_to(full[k], x) implies full.contains(x) by {
            assert(!in_stack(x, st0.loop_stack));
        }
    }
}

/// Every jump in the IR of an accepted function definition, parsed
/// outside any loop (as every function of a program is), names a label
/// line of that same function: its IR splits into lines without newline,
/// and for each jump line (`%jmp L`, `%branch_if t, L`, `%branch_ifn t, L`)
/// the line `L` is one of them.
pub proof fn law_function_jumps_resolved(ts: Seq<SpecToken>, i: int, table: Seq<SFunc>, st: SState)
    requires
        idents_fit(ts),
        ts.len() >= 1,
        ts.last() is End,
        0 <= i < ts.len(),
        st.loop_stack.len() == 0,
    ensures
        spec_function(ts, i, table, st).res matches Ok(code) ==> exists|ls: Seq<Seq<char>>| {
            &&& code == unlines(ls)
            &&& forall|k: int| 0 <= k < ls.len() ==> no_nl(#[trigger] ls[k])
            &&& forall|k: int, x: Seq<char>| 0 <= k < ls.len() && #[trigger] jump_to(ls[k], x) ==> ls.contains(x)
        },
{
    let ls = lemma_function_lines(ts, i, table, st);
    if spec_function(ts, i, table, st).res is Ok {
        let o = spec_function(ts, i, table, st);
        assert forall|k: int| 0 <= k < ls.len() implies no_nl(#[trigger] ls[k]) by {
            assert(line_in(ls[k], st, o.st));
        }
        assert forall|k: int, x: Seq<char>| 0 <= k < ls.len() && #[trigger] jump_to(ls[k], x) implies ls.contains(x) by {
            assert(!in_stack(x, st.loop_stack));
        }
    }
}

/// The tokens that the lexer makes of a UTF-8 text meet what
/// `law_program_ir_lines` and `law_function_jumps_resolved` ask of a
/// token stream: it ends with `End`, and no identifier holds a newline or
/// begins with `_`.
pub proof fn law_lexed_tokens_fit(b: Seq<u8>)
    requires
        valid_utf8(b),
    ensures
        lex_spec(b) matches Some(Ok(ts)) ==> idents_fit(ts) && ts.len() >= 1 && ts.last() is End,
{
    law_lex_identifiers(b);
    if lex_spec(b) matches Some(Ok(ts)) {
        let ts = lex_spec(b)->Some_0->Ok_0;
        assert forall|k: int| 0 <= k < ts.len() implies ((#[trigger] ts[k]) is Ident ==> no_nl(ts[k]->Ident_0)
            && (ts[k]->Ident_0.len() == 0 || ts[k]->Ident_0[0] != '_')) by {
            if ts[k] is Ident {
                assert(ident_well_formed(ts[k]->Ident_0));
                let c = ts[k]->Ident_0[0];
                assert(c != '_') by {
                    if c == '_' {
                        assert(c as u32 == 95);
                    }
                }
            }
        }
    }
}

} // verus!
