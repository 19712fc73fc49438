//! Text building blocks shared by the lexer and the code generator:
//! decimal rendering of integers, string comparison and concatenation.
use vstd::prelude::*;
use vstd::string::StringSliceAdditionalSpecFns;

verus! {

/// The decimal digit character for `d` (`d < 10`).
pub open spec fn digit_char(d: nat) -> char {
    ((d + 48) as u8) as char
}

/// Decimal rendering of a natural number, most significant digit first,
/// without leading zeros (zero is rendered as "0").
pub open spec fn nat_decimal(n: nat) -> Seq<char>
    decreases n,
{
    if n < 10 {
        seq![digit_char(n)]
    } else {
        nat_decimal(n / 10).push(digit_char(n % 10))
    }
}

/// Decimal rendering of an integer, with a leading '-' for negative values.
pub open spec fn int_decimal(v: int) -> Seq<char> {
    if v < 0 {
        seq!['-'] + nat_decimal((-v) as nat)
    } else {
        nat_decimal(v as nat)
    }
}

/// The value of a run of decimal digit characters, most significant first.
pub open spec fn decimal_value(s: Seq<char>) -> int
    decreases s.len(),
{
    if s.len() == 0 {
        0
    } else {
        decimal_value(s.drop_last()) * 10 + (s.last() as int - 48)
    }
}

proof fn lemma_nat_decimal(n: nat)
    ensures
        nat_decimal(n).len() >= 1,
        forall|k: int| 0 <= k < nat_decimal(n).len() ==> '0' <= #[trigger] nat_decimal(n)[k] <= '9',
        decimal_value(nat_decimal(n)) == n,
        n > 0 ==> nat_decimal(n)[0] != '0',
        nat_decimal(n).len() == 1 <==> n < 10,
    decreases n,
{
    let u: u8 = ((n % 10) + 48) as u8;
    assert(u as int == n % 10 + 48);
    assert(digit_char(n % 10) as int == n % 10 + 48);
    if n >= 10 {
        lemma_nat_decimal(n / 10);
        let d = nat_decimal(n / 10);
        assert(nat_decimal(n).drop_last() =~= d);
        assert(nat_decimal(n)[0] == d[0]);
        assert((n / 10) * 10 + n % 10 == n) by (nonlinear_arith);
        assert forall|k: int| 0 <= k < nat_decimal(n).len() implies '0' <= #[trigger] nat_decimal(n)[k] <= '9' by {
            if k < d.len() {
                assert(nat_decimal(n)[k] == d[k]);
            }
        }
    } else {
        assert(nat_decimal(n).drop_last() =~= Seq::<char>::empty());
        assert(decimal_value(Seq::<char>::empty()) == 0);
    }
}

/// `int_decimal(v)` is the decimal text of `v`: a '-' exactly when `v` is
/// negative, then at least one digit, without a leading zero unless the
/// digits are "0", whose value is the magnitude of `v`.
pub proof fn law_decimal_text(v: int)
    ensures
        (int_decimal(v)[0] == '-') == (v < 0),
        ({
            let d = if v < 0 { int_decimal(v).drop_first() } else { int_decimal(v) };
            &&& d.len() >= 1
            &&& forall|k: int| 0 <= k < d.len() ==> '0' <= #[trigger] d[k] <= '9'
            &&& decimal_value(d) == if v < 0 { -v } else { v }
            &&& (d[0] == '0' ==> d.len() == 1)
        }),
{
    let m: nat = if v < 0 { (-v) as nat } else { v as nat };
    lemma_nat_decimal(m);
    if v < 0 {
        assert(int_decimal(v).drop_first() =~= nat_decimal(m));
    }
}

/// Appends one character to a string.
/// Calls `String::push`; trusted to append exactly `c` at the end.
#[verifier::external_body]
pub(crate) fn push_char(s: &mut String, c: char)
    ensures
        final(s)@ == old(s)@.push(c),
{
    s.push(c);
}

/// Appends a string slice to a string.
pub fn push_str(s: &mut String, t: &str)
    ensures
        final(s)@ == old(s)@ + t@,
{
    s.append(t);
}

/// Appends the decimal rendering of `n`.
pub fn push_nat(s: &mut String, n: u128)
    ensures
        final(s)@ == old(s)@ + nat_decimal(n as nat),
    decreases n,
{
    if n >= 10 {
        push_nat(s, n / 10);
    }
    let d: u8 = (n % 10) as u8;
    let c: char = (d + 48) as char;
    push_char(s, c);
    proof {
        if n >= 10 {
            assert(old(s)@ + nat_decimal(n as nat) =~= old(s)@ + nat_decimal((n / 10) as nat) + seq![c]);
        } else {
            assert(old(s)@ + nat_decimal(n as nat) =~= old(s)@.push(c));
        }
    }
}

/// Appends the decimal rendering of `v`, with a '-' when negative.
pub fn push_int(s: &mut String, v: i128)
    requires
        v > i128::MIN,
    ensures
        final(s)@ == old(s)@ + int_decimal(v as int),
{
    if v < 0 {
        push_char(s, '-');
        push_nat(s, (-v) as u128);
        assert(old(s)@ + int_decimal(v as int) =~= old(s)@.push('-') + nat_decimal((-v) as nat));
    } else {
        push_nat(s, v as u128);
    }
}

/// Equality of two string slices by their characters.
pub fn str_eq(a: &str, b: &str) -> (r: bool)
    ensures
        r == (a@ == b@),
{
    let ab = a.as_bytes();
    let bb = b.as_bytes();
    if ab.len() != bb.len() {
        return false;
    }
    let mut i: usize = 0;
    while i < ab.len()
        invariant
            ab@ == a.spec_bytes(),
            bb@ == b.spec_bytes(),
            ab@.len() == bb@.len(),
            0 <= i <= ab@.len(),
            forall|j: int| 0 <= j < i ==> ab@[j] == bb@[j],
        decreases ab.len() - i,
    {
        if ab[i] != bb[i] {
            return false;
        }
        i = i + 1;
    }
    proof {
        assert(ab@ =~= bb@);
        vstd::utf8::encode_utf8_decode_utf8(a@);
        vstd::utf8::encode_utf8_decode_utf8(b@);
    }
    true
}

/// The elements of `list` separated by `sep`.
pub open spec fn join(list: Seq<Seq<char>>, sep: Seq<char>) -> Seq<char>
    decreases list.len(),
{
    if list.len() == 0 {
        seq![]
    } else if list.len() == 1 {
        list[0]
    } else {
        join(list.drop_last(), sep) + sep + list.last()
    }
}

/// The values of a sequence of strings.
pub open spec fn strings_view(v: Seq<String>) -> Seq<Seq<char>> {
    v.map_values(|s: String| s@)
}

/// The strings of `list` separated by `sep`.
pub fn join_strings(list: &Vec<String>, sep: &str) -> (r: String)
    ensures
        r@ == join(strings_view(list@), sep@),
{
    let mut r = String::new();
    let mut i: usize = 0;
    while i < list.len()
        invariant
            i <= list@.len(),
            r@ == join(strings_view(list@).take(i as int), sep@),
        decreases list.len() - i,
    {
        proof {
            assert(strings_view(list@).take(i + 1).drop_last() =~= strings_view(list@).take(i as int));
            assert(strings_view(list@).take(i + 1).last() == list@[i as int]@);
        }
        if i != 0 {
            push_str(&mut r, sep);
        }
        push_str(&mut r, list[i].as_str());
        proof {
            if i == 0 {
                assert(strings_view(list@).take(0) =~= seq![]);
                assert(r@ =~= strings_view(list@).take(1)[0]);
            }
        }
        i += 1;
    }
    assert(strings_view(list@).take(list@.len() as int) =~= strings_view(list@));
    r
}

} // verus!
