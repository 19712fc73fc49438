//! The lexer: turns source text into a sequence of tokens.
//!
//! The lexer reads the UTF-8 bytes of the source one at a time. A byte is
//! classified as the character with the same code point (U+0000..U+00FF),
//! so bytes of multi-byte characters are judged by their Latin-1 reading.
use vstd::prelude::*;
use vstd::string::StringSliceAdditionalSpecFns;
use vstd::utf8::{decode_utf8, is_char_boundary, valid_utf8, is_continuation_byte, decode_first_scalar, pop_first_scalar};
use crate::lexer::token::{Token, SpecToken, tokens_view};
use crate::text::{push_char, push_str, str_eq};

verus! {

/// `char::is_alphabetic` of the character whose code point is `b`.
pub open spec fn latin1_alphabetic(b: u8) -> bool {
    ||| (65 <= b && b <= 90)
    ||| (97 <= b && b <= 122)
    ||| b == 0xAA
    ||| b == 0xB5
    ||| b == 0xBA
    ||| (0xC0 <= b && b <= 0xD6)
    ||| (0xD8 <= b && b <= 0xF6)
    ||| 0xF8 <= b
}

/// `char::is_numeric` of the character whose code point is `b`.
pub open spec fn latin1_numeric(b: u8) -> bool {
    ||| (48 <= b && b <= 57)
    ||| b == 0xB2
    ||| b == 0xB3
    ||| b == 0xB9
    ||| (0xBC <= b && b <= 0xBE)
}

/// An ASCII letter: the bytes that start an identifier or a keyword.
pub open spec fn ascii_letter(b: u8) -> bool {
    (65 <= b && b <= 90) || (97 <= b && b <= 122)
}

/// An ASCII decimal digit.
pub open spec fn ascii_digit(b: u8) -> bool {
    48 <= b && b <= 57
}

/// The bytes that continue an identifier after its first letter.
pub open spec fn ident_byte(b: u8) -> bool {
    latin1_alphabetic(b) || b == 95 || latin1_numeric(b)
}

/// The token of a byte that forms a token on its own.
pub open spec fn single_byte_token(b: u8) -> Option<SpecToken> {
    if b == 40 { Some(SpecToken::LeftParen) }
    else if b == 41 { Some(SpecToken::RightParen) }
    else if b == 123 { Some(SpecToken::LeftCurly) }
    else if b == 125 { Some(SpecToken::RightCurly) }
    else if b == 91 { Some(SpecToken::LeftBracket) }
    else if b == 93 { Some(SpecToken::RightBracket) }
    else if b == 44 { Some(SpecToken::Comma) }
    else if b == 59 { Some(SpecToken::Semicolon) }
    else if b == 43 { Some(SpecToken::Plus) }
    else if b == 45 { Some(SpecToken::Subtract) }
    else if b == 42 { Some(SpecToken::Multiply) }
    else if b == 47 { Some(SpecToken::Divide) }
    else if b == 37 { Some(SpecToken::Modulus) }
    else { None }
}

/// The keyword token spelled by `s`, or an identifier token for `s`.
pub open spec fn keyword_or_ident(s: Seq<char>) -> SpecToken {
    if s == "func"@ { SpecToken::Func }
    else if s == "return"@ { SpecToken::Return }
    else if s == "int"@ { SpecToken::Int }
    else if s == "print"@ { SpecToken::Print }
    else if s == "read"@ { SpecToken::Read }
    else if s == "while"@ { SpecToken::While }
    else if s == "if"@ { SpecToken::If }
    else if s == "else"@ { SpecToken::Else }
    else if s == "break"@ { SpecToken::Break }
    else if s == "continue"@ { SpecToken::Continue }
    else { SpecToken::Ident(s) }
}

/// The first position at or after `i` that holds a newline, or the end.
pub open spec fn comment_end(b: Seq<u8>, i: int) -> int
    decreases b.len() - i,
{
    if i >= b.len() || b[i] == 10 { i } else { comment_end(b, i + 1) }
}

/// The first position at or after `i` that does not continue an identifier.
pub open spec fn ident_end(b: Seq<u8>, i: int) -> int
    decreases b.len() - i,
{
    if i >= b.len() || !ident_byte(b[i]) { i } else { ident_end(b, i + 1) }
}

/// The first position at or after `i` that is not an ASCII digit.
pub open spec fn digits_end(b: Seq<u8>, i: int) -> int
    decreases b.len() - i,
{
    if i >= b.len() || !ascii_digit(b[i]) { i } else { digits_end(b, i + 1) }
}

/// The value of a run of ASCII digits.
pub open spec fn digits_value(d: Seq<u8>) -> nat
    decreases d.len(),
{
    if d.len() == 0 { 0 } else { digits_value(d.drop_last()) * 10 + (d.last() - 48) as nat }
}

pub proof fn lemma_scan_ends(b: Seq<u8>, i: int)
    requires 0 <= i,
    ensures
        i <= comment_end(b, i),
        i <= ident_end(b, i),
        i <= digits_end(b, i),
        comment_end(b, i) <= i || comment_end(b, i) <= b.len(),
        ident_end(b, i) <= i || ident_end(b, i) <= b.len(),
        digits_end(b, i) <= i || digits_end(b, i) <= b.len(),
    decreases b.len() - i,
{
    if i < b.len() {
        lemma_scan_ends(b, i + 1);
    }
}

/// The characters of a run of ASCII bytes.
pub open spec fn digits_text(d: Seq<u8>) -> Seq<char> {
    d.map_values(|x: u8| x as char)
}

/// The outcome of lexing the bytes `b` from position `i`, having produced
/// the tokens `acc` so far. `None` stands for inputs on which the lexer
/// cannot proceed: a slice of the text that would split a character.
pub open spec fn lex_from(b: Seq<u8>, i: int, acc: Seq<SpecToken>) -> Option<Result<Seq<SpecToken>, Seq<char>>>
    decreases b.len() - i,
{
    if i < 0 {
        None
    } else if i >= b.len() {
        Some(Ok(acc.push(SpecToken::End)))
    } else {
        let c = b[i];
        if c == 32 || c == 10 {
            lex_from(b, i + 1, acc)
        } else if c == 35 {
            let j = comment_end(b, i + 1);
            proof { lemma_scan_ends(b, i + 1); }
            lex_from(b, j, acc)
        } else if single_byte_token(c) is Some {
            lex_from(b, i + 1, acc.push(single_byte_token(c)->0))
        } else if c == 61 {
            if i + 1 < b.len() && b[i + 1] == 61 {
                lex_from(b, i + 2, acc.push(SpecToken::Equality))
            } else {
                lex_from(b, i + 1, acc.push(SpecToken::Assign))
            }
        } else if c == 33 {
            if i + 1 < b.len() && b[i + 1] == 61 {
                lex_from(b, i + 2, acc.push(SpecToken::NotEqual))
            } else {
                Some(Err("Unrecognized symbol '!'"@))
            }
        } else if c == 60 {
            if i + 1 < b.len() && b[i + 1] == 61 {
                lex_from(b, i + 2, acc.push(SpecToken::LessEqual))
            } else {
                lex_from(b, i + 1, acc.push(SpecToken::Less))
            }
        } else if c == 62 {
            if i + 1 < b.len() && b[i + 1] == 61 {
                lex_from(b, i + 2, acc.push(SpecToken::GreaterEqual))
            } else {
                lex_from(b, i + 1, acc.push(SpecToken::Greater))
            }
        } else if ascii_letter(c) {
            let j = ident_end(b, i + 1);
            proof { lemma_scan_ends(b, i + 1); }
            if !is_char_boundary(b, j) {
                None
            } else {
                lex_from(b, j, acc.push(keyword_or_ident(decode_utf8(b.subrange(i, j)))))
            }
        } else if ascii_digit(c) {
            let j = digits_end(b, i + 1);
            proof { lemma_scan_ends(b, i + 1); }
            if j < b.len() && latin1_alphabetic(b[j]) {
                if is_char_boundary(b, j + 1) {
                    Some(Err("Invalid identifier: "@ + decode_utf8(b.subrange(i, j + 1))))
                } else {
                    None
                }
            } else if digits_value(b.subrange(i, j)) > i32::MAX {
                Some(Err("Number out of range: "@ + digits_text(b.subrange(i, j))))
            } else {
                lex_from(b, j, acc.push(SpecToken::Num(digits_value(b.subrange(i, j)) as i32)))
            }
        } else {
            Some(Err("Unrecognized symbol '"@ + seq![c as char] + "'"@))
        }
    }
}

/// The outcome of lexing the UTF-8 bytes `b` of a source text: the tokens,
/// or the error message; `None` where the lexer cannot proceed.
pub open spec fn lex_spec(b: Seq<u8>) -> Option<Result<Seq<SpecToken>, Seq<char>>> {
    lex_from(b, 0, seq![])
}

/* Identifiers */

/// The text of an identifier token: it begins with an ASCII letter
/// (`A`..`Z` or `a`..`z`), is no keyword and holds no newline.
pub open spec fn ident_well_formed(s: Seq<char>) -> bool {
    &&& s.len() >= 1
    &&& (65 <= s[0] as u32 <= 90 || 97 <= s[0] as u32 <= 122)
    &&& keyword_or_ident(s) == SpecToken::Ident(s)
    &&& forall|k: int| 0 <= k < s.len() ==> s[k] != '\n'
}

/// Every identifier token of `ts` is well formed.
pub open spec fn idents_well_formed(ts: Seq<SpecToken>) -> bool {
    forall|k: int| 0 <= k < ts.len() ==> ((#[trigger] ts[k]) is Ident ==> ident_well_formed(ts[k]->Ident_0))
}

proof fn lemma_push_token(acc: Seq<SpecToken>, t: SpecToken)
    requires
        idents_well_formed(acc),
        t is Ident ==> ident_well_formed(t->Ident_0),
    ensures
        idents_well_formed(acc.push(t)),
{
    assert forall|k: int| 0 <= k < acc.push(t).len() implies ((#[trigger] acc.push(t)[k]) is Ident
        ==> ident_well_formed(acc.push(t)[k]->Ident_0)) by {
        if k < acc.len() {
            assert(acc.push(t)[k] == acc[k]);
        }
    }
}

/// The text of an identifier that starts with an ASCII letter at `i` and
/// ends at the character boundary `j` starts with that letter.
proof fn lemma_ident_end_bytes(b: Seq<u8>, i: int)
    requires
        0 <= i,
    ensures
        forall|m: int| i <= m < ident_end(b, i) ==> ident_byte(#[trigger] b[m]),
    decreases b.len() - i,
{
    if i < b.len() && ident_byte(b[i]) {
        lemma_ident_end_bytes(b, i + 1);
    }
}

/// UTF-8 text without a newline byte decodes to characters without a
/// newline.
proof fn lemma_decode_no_newline(x: Seq<u8>)
    requires
        valid_utf8(x),
        forall|k: int| 0 <= k < x.len() ==> #[trigger] x[k] != 10,
    ensures
        forall|k: int| 0 <= k < decode_utf8(x).len() ==> #[trigger] decode_utf8(x)[k] != '\n',
    decreases x.len(),
{
    if x.len() > 0 {
        let rest = pop_first_scalar(x);
        let n = vstd::utf8::length_of_first_scalar(x);
        assert(rest =~= x.subrange(n, x.len() as int));
        assert forall|k: int| 0 <= k < rest.len() implies #[trigger] rest[k] != 10 by {
            assert(rest[k] == x[k + n]);
        }
        lemma_decode_no_newline(rest);
        let cp = decode_first_scalar(x);
        if vstd::utf8::is_leading_byte_width_1(x[0]) {
            let v: u8 = x[0];
            assert((v & 0x7f) == v) by (bit_vector)
                requires v < 0x80;
        }
        assert(cp != 10);
        let d = decode_utf8(x);
        assert(d =~= seq![cp as char] + decode_utf8(rest));
        assert forall|k: int| 0 <= k < d.len() implies #[trigger] d[k] != '\n' by {
            if k == 0 {
                assert(d[0] == cp as char);
                if d[0] == '\n' {
                    vstd::utf8::decode_utf8_first_scalar(x);
                    assert(('\n' as u32) == 10);
                    let ten: u32 = 10;
                    assert((ten & 0x7F) as u8 == 10u8) by (bit_vector)
                        requires ten == 10;
                    assert(vstd::utf8::encode_scalar(10u32) =~= seq![10u8]);
                    assert(vstd::utf8::take_first_scalar(x)[0] == x[0]);
                }
            } else {
                assert(d[k] == decode_utf8(rest)[k - 1]);
            }
        }
    }
}

proof fn lemma_ident_text(b: Seq<u8>, i: int, j: int)
    requires
        valid_utf8(b),
        0 <= i < j <= b.len(),
        ascii_letter(b[i]),
        is_char_boundary(b, j),
        forall|m: int| i < m < j ==> ident_byte(#[trigger] b[m]),
    ensures
        decode_utf8(b.subrange(i, j)).len() >= 1,
        decode_utf8(b.subrange(i, j))[0] as u32 == b[i] as u32,
        forall|k: int| 0 <= k < decode_utf8(b.subrange(i, j)).len() ==> #[trigger] decode_utf8(b.subrange(i, j))[k] != '\n',
{
    vstd::utf8::is_char_boundary_iff_not_is_continuation_byte(b, i);
    vstd::utf8::valid_utf8_split(b, i);
    let c = b.subrange(i, b.len() as int);
    if j < b.len() {
        vstd::utf8::is_char_boundary_iff_not_is_continuation_byte(b, j);
        vstd::utf8::is_char_boundary_iff_not_is_continuation_byte(c, j - i);
    } else {
        vstd::utf8::is_char_boundary_start_end_of_seq(c);
    }
    vstd::utf8::valid_utf8_split(c, j - i);
    let x = b.subrange(i, j);
    assert(c.subrange(0, j - i) =~= x);
    assert(x[0] == b[i]);
    let v: u8 = x[0];
    assert((v & 0x7f) == v) by (bit_vector)
        requires v < 0x80;
    assert(decode_utf8(x) =~= seq![decode_first_scalar(x) as char] + decode_utf8(pop_first_scalar(x)));
    assert forall|k: int| 0 <= k < x.len() implies #[trigger] x[k] != 10 by {
        if k > 0 {
            assert(x[k] == b[i + k]);
            assert(ident_byte(b[i + k]));
        }
    }
    lemma_decode_no_newline(x);
}

proof fn lemma_lex_from_idents(b: Seq<u8>, i: int, acc: Seq<SpecToken>)
    requires
        valid_utf8(b),
        idents_well_formed(acc),
        0 <= i,
    ensures
        lex_from(b, i, acc) matches Some(Ok(ts)) ==> idents_well_formed(ts) && ts.len() >= 1 && ts.last() is End,
    decreases b.len() - i,
{
    if i >= b.len() {
        lemma_push_token(acc, SpecToken::End);
    } else {
        let c = b[i];
        lemma_scan_ends(b, i + 1);
        if c == 32 || c == 10 {
            lemma_lex_from_idents(b, i + 1, acc);
        } else if c == 35 {
            lemma_lex_from_idents(b, comment_end(b, i + 1), acc);
        } else if single_byte_token(c) is Some {
            let t = single_byte_token(c)->0;
            lemma_push_token(acc, t);
            lemma_lex_from_idents(b, i + 1, acc.push(t));
        } else if c == 61 || c == 60 || c == 62 || c == 33 {
            let two = i + 1 < b.len() && b[i + 1] == 61;
            let t = if c == 61 {
                if two { SpecToken::Equality } else { SpecToken::Assign }
            } else if c == 60 {
                if two { SpecToken::LessEqual } else { SpecToken::Less }
            } else if c == 62 {
                if two { SpecToken::GreaterEqual } else { SpecToken::Greater }
            } else {
                SpecToken::NotEqual
            };
            lemma_push_token(acc, t);
            if two {
                lemma_lex_from_idents(b, i + 2, acc.push(t));
            } else {
                lemma_lex_from_idents(b, i + 1, acc.push(t));
            }
        } else if ascii_letter(c) {
            let j = ident_end(b, i + 1);
            if is_char_boundary(b, j) {
                let s = decode_utf8(b.subrange(i, j));
                lemma_ident_end_bytes(b, i + 1);
                lemma_ident_text(b, i, j);
                lemma_push_token(acc, keyword_or_ident(s));
                lemma_lex_from_idents(b, j, acc.push(keyword_or_ident(s)));
            }
        } else if ascii_digit(c) {
            let j = digits_end(b, i + 1);
            let t = SpecToken::Num(digits_value(b.subrange(i, j)) as i32);
            lemma_push_token(acc, t);
            lemma_lex_from_idents(b, j, acc.push(t));
        }
    }
}

/// Every identifier that the lexer produces from UTF-8 text begins with an
/// ASCII letter and holds no newline, no keyword is produced as an
/// identifier, and the tokens end with `End`.
pub proof fn law_lex_identifiers(b: Seq<u8>)
    requires
        valid_utf8(b),
    ensures
        lex_spec(b) matches Some(Ok(ts)) ==> idents_well_formed(ts) && ts.len() >= 1 && ts.last() is End,
{
    lemma_lex_from_idents(b, 0, seq![]);
}

/* Where the lexer is defined */

/// Every position of a valid UTF-8 text whose bytes are all ASCII is a
/// character boundary.
proof fn lemma_ascii_boundary(b: Seq<u8>, j: int)
    requires
        valid_utf8(b),
        forall|k: int| 0 <= k < b.len() ==> #[trigger] b[k] < 0x80,
        0 <= j <= b.len(),
    ensures
        is_char_boundary(b, j),
{
    if j < b.len() {
        vstd::utf8::is_char_boundary_iff_not_is_continuation_byte(b, j);
    } else {
        vstd::utf8::is_char_boundary_start_end_of_seq(b);
    }
}

proof fn lemma_lex_from_defined(b: Seq<u8>, i: int, acc: Seq<SpecToken>)
    requires
        valid_utf8(b),
        forall|k: int| 0 <= k < b.len() ==> #[trigger] b[k] < 0x80,
        0 <= i,
    ensures
        lex_from(b, i, acc) is Some,
    decreases b.len() - i,
{
    if i < b.len() {
        let c = b[i];
        lemma_scan_ends(b, i + 1);
        if c == 32 || c == 10 {
            lemma_lex_from_defined(b, i + 1, acc);
        } else if c == 35 {
            lemma_lex_from_defined(b, comment_end(b, i + 1), acc);
        } else if single_byte_token(c) is Some {
            lemma_lex_from_defined(b, i + 1, acc.push(single_byte_token(c)->0));
        } else if c == 61 || c == 60 || c == 62 || c == 33 {
            let two = i + 1 < b.len() && b[i + 1] == 61;
            let t = if c == 61 {
                if two { SpecToken::Equality } else { SpecToken::Assign }
            } else if c == 60 {
                if two { SpecToken::LessEqual } else { SpecToken::Less }
            } else if c == 62 {
                if two { SpecToken::GreaterEqual } else { SpecToken::Greater }
            } else {
                SpecToken::NotEqual
            };
            if two {
                lemma_lex_from_defined(b, i + 2, acc.push(t));
            } else {
                lemma_lex_from_defined(b, i + 1, acc.push(t));
            }
        } else if ascii_letter(c) {
            let j = ident_end(b, i + 1);
            lemma_ascii_boundary(b, j);
            lemma_lex_from_defined(b, j, acc.push(keyword_or_ident(decode_utf8(b.subrange(i, j)))));
        } else if ascii_digit(c) {
            let j = digits_end(b, i + 1);
            if j < b.len() {
                lemma_ascii_boundary(b, j + 1);
            }
            lemma_lex_from_defined(b, j, acc.push(SpecToken::Num(digits_value(b.subrange(i, j)) as i32)));
        }
    }
}

/// The lexer is defined on every ASCII text: `lex` accepts it, giving its
/// tokens or its first error, with no input left out.
pub proof fn law_lex_defined_on_ascii(code: &str)
    requires
        vstd::string::is_ascii(code),
    ensures
        lex_spec(code.spec_bytes()) is Some,
{
    vstd::string::is_ascii_spec_bytes(code);
    vstd::utf8::encode_utf8_valid_utf8(code@);
    let b = code.spec_bytes();
    assert forall|k: int| 0 <= k < b.len() implies #[trigger] b[k] < 0x80 by {
        let c = code@[k];
        assert('\0' <= c <= '\u{7f}');
        assert(b[k] == c as u8);
    }
    lemma_lex_from_defined(b, 0, seq![]);
}

/// The value of a lexer result.
pub open spec fn lex_result_view(r: Result<Vec<Token>, String>) -> Result<Seq<SpecToken>, Seq<char>> {
    match r {
        Ok(ts) => Ok(tokens_view(ts@)),
        Err(e) => Err(e@),
    }
}

/// A token stream that ends with `End` and holds no other `End`.
pub open spec fn ends_with_single_end(ts: Seq<SpecToken>) -> bool {
    &&& ts.len() >= 1
    &&& ts.last() is End
    &&& forall|k: int| 0 <= k < ts.len() - 1 ==> !(#[trigger] ts[k] is End)
}

} // verus!
verus! {

proof fn lemma_push_view(ts: Seq<Token>, t: Token)
    ensures
        tokens_view(ts.push(t)) == tokens_view(ts).push(t@),
{
    assert(tokens_view(ts.push(t)) =~= tokens_view(ts).push(t@));
}

proof fn lemma_digits_value_prefix(d: Seq<u8>, k: int)
    requires
        0 <= k <= d.len(),
    ensures
        digits_value(d.subrange(0, k)) <= digits_value(d),
    decreases d.len() - k,
{
    if k < d.len() {
        lemma_digits_value_prefix(d, k + 1);
        assert(d.subrange(0, k + 1).drop_last() =~= d.subrange(0, k));
    } else {
        assert(d.subrange(0, k) =~= d);
    }
}

/// `char::is_alphabetic` of the byte read as a character.
fn is_alphabetic_byte(b: u8) -> (r: bool)
    ensures
        r == latin1_alphabetic(b),
{
    (65 <= b && b <= 90) || (97 <= b && b <= 122) || b == 0xAA || b == 0xB5 || b == 0xBA
        || (0xC0 <= b && b <= 0xD6) || (0xD8 <= b && b <= 0xF6) || 0xF8 <= b
}

/// `char::is_numeric` of the byte read as a character.
fn is_numeric_byte(b: u8) -> (r: bool)
    ensures
        r == latin1_numeric(b),
{
    (48 <= b && b <= 57) || b == 0xB2 || b == 0xB3 || b == 0xB9 || (0xBC <= b && b <= 0xBE)
}

/// The part of `code` between two byte positions that are character boundaries.
fn slice_text(code: &str, start: usize, end: usize) -> (r: &str)
    requires
        start <= end <= code.spec_bytes().len(),
        is_char_boundary(code.spec_bytes(), start as int),
        is_char_boundary(code.spec_bytes(), end as int),
    ensures
        r@ == decode_utf8(code.spec_bytes().subrange(start as int, end as int)),
{
    let ghost b = code.spec_bytes();
    proof {
        vstd::utf8::encode_utf8_valid_utf8(code@);
        vstd::utf8::valid_utf8_split(b, end as int);
    }
    let (head, _rest) = code.split_at(end);
    proof {
        let p = head.spec_bytes();
        assert(p =~= b.subrange(0, end as int));
        if start < end {
            vstd::utf8::is_char_boundary_iff_not_is_continuation_byte(b, start as int);
            vstd::utf8::is_char_boundary_iff_not_is_continuation_byte(p, start as int);
        } else {
            vstd::utf8::is_char_boundary_start_end_of_seq(p);
        }
    }
    let (_front, piece) = head.split_at(start);
    proof {
        assert(piece.spec_bytes() =~= b.subrange(start as int, end as int));
        vstd::utf8::encode_utf8_decode_utf8(piece@);
    }
    piece
}

/// The keyword token spelled by `code`, or an identifier token for it.
fn create_identifier(code: &str) -> (t: Token)
    ensures
        t@ == keyword_or_ident(code@),
{
    if str_eq(code, "func") {
        Token::Func
    } else if str_eq(code, "return") {
        Token::Return
    } else if str_eq(code, "int") {
        Token::Int
    } else if str_eq(code, "print") {
        Token::Print
    } else if str_eq(code, "read") {
        Token::Read
    } else if str_eq(code, "while") {
        Token::While
    } else if str_eq(code, "if") {
        Token::If
    } else if str_eq(code, "else") {
        Token::Else
    } else if str_eq(code, "break") {
        Token::Break
    } else if str_eq(code, "continue") {
        Token::Continue
    } else {
        Token::Ident(code.to_owned())
    }
}

/// The value of the outcome of `try_lex`.
pub open spec fn lex_outcome_view(r: Option<Result<Vec<Token>, String>>) -> Option<Result<Seq<SpecToken>, Seq<char>>> {
    match r {
        Some(x) => Some(lex_result_view(x)),
        None => None,
    }
}

/// Splits `code` into tokens, ending with `End`; or reports the first
/// unrecognized symbol, malformed identifier or number literal beyond
/// `i32`.
pub fn lex(code: &str) -> (r: Result<Vec<Token>, String>)
    requires
        lex_spec(code.spec_bytes()) is Some,
    ensures
        Some(lex_result_view(r)) == lex_spec(code.spec_bytes()),
        r matches Ok(ts) ==> ends_with_single_end(tokens_view(ts@)),
{
    match try_lex(code) {
        Some(r) => r,
        None => Err(String::new()),  // not reached: `requires` rules this input out
    }
}

/// Lexes `code` as `lex` does, and returns `None` on the inputs that `lex`
/// does not take: where an identifier, or a malformed one, would end
/// inside a multi-byte character.
pub fn try_lex(code: &str) -> (r: Option<Result<Vec<Token>, String>>)
    ensures
        lex_outcome_view(r) == lex_spec(code.spec_bytes()),
        r matches Some(Ok(ts)) ==> ends_with_single_end(tokens_view(ts@)),
{
    let bytes = code.as_bytes();
    let ghost b = bytes@;
    let mut tokens: Vec<Token> = Vec::new();
    proof {
        vstd::utf8::encode_utf8_valid_utf8(code@);
        assert(tokens_view(tokens@) =~= seq![]);
    }
    let mut i: usize = 0;
    while i < bytes.len()
        invariant
            b == bytes@,
            b == code.spec_bytes(),
            valid_utf8(b),
            i <= b.len(),
            lex_spec(b) == lex_from(b, i as int, tokens_view(tokens@)),
            forall|k: int| 0 <= k < tokens@.len() ==> !(#[trigger] tokens@[k]@ is End),
        decreases b.len() - i,
    {
        let ghost acc = tokens_view(tokens@);
        let ghost old_tokens = tokens@;
        let c = bytes[i];
        if c == 32 || c == 10 {
            // whitespace
            i += 1;
        } else if c == 35 {
            // comment up to the end of the line
            i += 1;
            let ghost from = i as int;
            while i < bytes.len() && bytes[i] != 10
                invariant
                    b == bytes@,
                    i <= b.len(),
                    from <= i,
                    comment_end(b, i as int) == comment_end(b, from),
                decreases b.len() - i,
            {
                i += 1;
            }
        } else if c == 40 || c == 41 || c == 123 || c == 125 || c == 91 || c == 93 || c == 44
            || c == 59 || c == 43 || c == 45 || c == 42 || c == 47 || c == 37 {
            let t = if c == 40 {
                Token::LeftParen
            } else if c == 41 {
                Token::RightParen
            } else if c == 123 {
                Token::LeftCurly
            } else if c == 125 {
                Token::RightCurly
            } else if c == 91 {
                Token::LeftBracket
            } else if c == 93 {
                Token::RightBracket
            } else if c == 44 {
                Token::Comma
            } else if c == 59 {
                Token::Semicolon
            } else if c == 43 {
                Token::Plus
            } else if c == 45 {
                Token::Subtract
            } else if c == 42 {
                Token::Multiply
            } else if c == 47 {
                Token::Divide
            } else {
                Token::Modulus
            };
            proof { lemma_push_view(tokens@, t); }
            tokens.push(t);
            i += 1;
        } else if c == 61 {
            // = and ==
            i += 1;
            if i < bytes.len() && bytes[i] == 61 {
                proof { lemma_push_view(tokens@, Token::Equality); }
                tokens.push(Token::Equality);
                i += 1;
            } else {
                proof { lemma_push_view(tokens@, Token::Assign); }
                tokens.push(Token::Assign);
            }
        } else if c == 33 {
            // != (a lone ! is an error)
            i += 1;
            if i < bytes.len() && bytes[i] == 61 {
                proof { lemma_push_view(tokens@, Token::NotEqual); }
                tokens.push(Token::NotEqual);
                i += 1;
            } else {
                return Some(Err("Unrecognized symbol '!'".to_owned()));
            }
        } else if c == 60 {
            // < and <=
            i += 1;
            if i < bytes.len() && bytes[i] == 61 {
                proof { lemma_push_view(tokens@, Token::LessEqual); }
                tokens.push(Token::LessEqual);
                i += 1;
            } else {
                proof { lemma_push_view(tokens@, Token::Less); }
                tokens.push(Token::Less);
            }
        } else if c == 62 {
            // > and >=
            i += 1;
            if i < bytes.len() && bytes[i] == 61 {
                proof { lemma_push_view(tokens@, Token::GreaterEqual); }
                tokens.push(Token::GreaterEqual);
                i += 1;
            } else {
                proof { lemma_push_view(tokens@, Token::Greater); }
                tokens.push(Token::Greater);
            }
        } else if (65 <= c && c <= 90) || (97 <= c && c <= 122) {
            // identifiers and keywords
            let start = i;
            i += 1;
            while i < bytes.len() && (is_alphabetic_byte(bytes[i]) || bytes[i] == 95 || is_numeric_byte(bytes[i]))
                invariant
                    b == bytes@,
                    start < i <= b.len(),
                    ident_end(b, i as int) == ident_end(b, start + 1),
                decreases b.len() - i,
            {
                i += 1;
            }
            proof {
                vstd::utf8::is_char_boundary_iff_not_is_continuation_byte(b, start as int);
                vstd::utf8::is_char_boundary_start_end_of_seq(b);
                if i < b.len() {
                    vstd::utf8::is_char_boundary_iff_not_is_continuation_byte(b, i as int);
                }
            }
            if i < bytes.len() && 0x80 <= bytes[i] && bytes[i] <= 0xbf {
                // the identifier would end inside a character
                return None;
            }
            let text = slice_text(code, start, i);
            let t = create_identifier(text);
            proof { lemma_push_view(tokens@, t); }
            tokens.push(t);
        } else if 48 <= c && c <= 57 {
            // number literals
            let start = i;
            i += 1;
            while i < bytes.len() && 48 <= bytes[i] && bytes[i] <= 57
                invariant
                    b == bytes@,
                    start < i <= b.len(),
                    digits_end(b, i as int) == digits_end(b, start + 1),
                    forall|m: int| start <= m < i ==> ascii_digit(#[trigger] b[m]),
                decreases b.len() - i,
            {
                i += 1;
            }
            if i < bytes.len() && is_alphabetic_byte(bytes[i]) {
                proof {
                    vstd::utf8::is_char_boundary_iff_not_is_continuation_byte(b, start as int);
                    vstd::utf8::is_char_boundary_start_end_of_seq(b);
                    if i + 1 < b.len() {
                        vstd::utf8::is_char_boundary_iff_not_is_continuation_byte(b, i + 1);
                    }
                }
                if i + 1 < bytes.len() && 0x80 <= bytes[i + 1] && bytes[i + 1] <= 0xbf {
                    // the malformed identifier would end inside a character
                    return None;
                }
                let text = slice_text(code, start, i + 1);
                let mut msg = "Invalid identifier: ".to_owned();
                push_str(&mut msg, text);
                return Some(Err(msg));
            }
            let ghost d = b.subrange(start as int, i as int);
            let mut value: u64 = 0;
            let mut k: usize = start;
            while k < i
                invariant
                    b == bytes@,
                    start <= k <= i <= b.len(),
                    d == b.subrange(start as int, i as int),
                    forall|m: int| start <= m < i ==> ascii_digit(#[trigger] b[m]),
                    value == digits_value(b.subrange(start as int, k as int)),
                    value <= i32::MAX,
                    b == code.spec_bytes(),
                    lex_spec(b) == lex_from(b, start as int, tokens_view(tokens@)),
                    digits_end(b, start + 1) == i,
                    !(i < b.len() && latin1_alphabetic(b[i as int])),
                decreases i - k,
            {
                proof {
                    assert(b.subrange(start as int, k + 1).drop_last() =~= b.subrange(start as int, k as int));
                    assert(d.subrange(0, k + 1 - start) =~= b.subrange(start as int, k + 1));
                    lemma_digits_value_prefix(d, k + 1 - start);
                }
                value = value * 10 + (bytes[k] - 48) as u64;
                k += 1;
                if value > 0x7fff_ffff {
                    // the literal does not fit in an i32
                    proof {
                        assert(d.subrange(0, k - start) =~= b.subrange(start as int, k as int));
                        lemma_digits_value_prefix(d, k - start);
                        assert(ascii_digit(b[start as int]));
                    }
                    let mut msg = "Number out of range: ".to_owned();
                    let ghost prefix = msg@;
                    let mut m: usize = start;
                    while m < i
                        invariant
                            b == bytes@,
                            start <= m <= i <= b.len(),
                            msg@ == prefix + digits_text(b.subrange(start as int, m as int)),
                        decreases i - m,
                    {
                        proof {
                            assert(digits_text(b.subrange(start as int, m + 1))
                                =~= digits_text(b.subrange(start as int, m as int)).push(bytes[m as int] as char));
                        }
                        push_char(&mut msg, bytes[m] as char);
                        m += 1;
                    }
                    return Some(Err(msg));
                }
            }
            proof {
                assert(d =~= b.subrange(start as int, k as int));
            }
            let t = Token::Num(value as i32);
            proof { lemma_push_view(tokens@, t); }
            tokens.push(t);
        } else {
            let mut msg = "Unrecognized symbol '".to_owned();
            push_char(&mut msg, c as char);
            push_str(&mut msg, "'");
            assert(msg@ =~= "Unrecognized symbol '"@ + seq![c as char] + "'"@);
            return Some(Err(msg));
        }
    }
    proof { lemma_push_view(tokens@, Token::End); }
    tokens.push(Token::End);
    Some(Ok(tokens))
}

} // verus!
