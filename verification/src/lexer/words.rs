//! How the lexer treats a word: an ASCII text that starts with a letter
//! (upper or lower case) and goes on with letters, digits and underscores
//! is one keyword or identifier token, and the text after it is lexed as
//! if it stood alone.
use vstd::prelude::*;
use vstd::utf8::{decode_utf8, is_char_boundary, valid_utf8, pop_first_scalar};
use crate::lexer::token::SpecToken;
use crate::lexer::scanner::{
    lex_from, lex_spec, keyword_or_ident, ascii_letter, ascii_digit, ident_byte, latin1_alphabetic,
    single_byte_token, comment_end, ident_end, digits_end, digits_value, lemma_scan_ends,
};

verus! {

/// The characters of a run of ASCII bytes.
pub open spec fn ascii_text(b: Seq<u8>) -> Seq<char> {
    b.map_values(|x: u8| x as char)
}

/// Every byte of `b` is an ASCII byte.
pub open spec fn all_ascii(b: Seq<u8>) -> bool {
    forall|k: int| 0 <= k < b.len() ==> #[trigger] b[k] < 0x80
}

/// A lexer outcome with the token `t` put in front of its tokens.
pub open spec fn prepend_token(t: SpecToken, r: Option<Result<Seq<SpecToken>, Seq<char>>>) -> Option<Result<Seq<SpecToken>, Seq<char>>> {
    match r {
        Some(Ok(ts)) => Some(Ok(seq![t] + ts)),
        _ => r,
    }
}

/// ASCII bytes are valid UTF-8 and decode to the characters with the same
/// code points.
pub proof fn lemma_ascii_utf8(x: Seq<u8>)
    requires
        all_ascii(x),
    ensures
        valid_utf8(x),
        decode_utf8(x) == ascii_text(x),
    decreases x.len(),
{
    if x.len() > 0 {
        let rest = x.subrange(1, x.len() as int);
        assert(all_ascii(rest)) by {
            assert forall|k: int| 0 <= k < rest.len() implies #[trigger] rest[k] < 0x80 by {
                assert(rest[k] == x[k + 1]);
            }
        }
        lemma_ascii_utf8(rest);
        let v: u8 = x[0];
        assert((v & 0x7f) == v) by (bit_vector)
            requires v < 0x80;
        assert(pop_first_scalar(x) =~= rest);
        assert(decode_utf8(x) =~= ascii_text(x));
    }
}

/// Each position of an ASCII text is a character boundary.
proof fn lemma_ascii_boundaries(b: Seq<u8>)
    requires
        all_ascii(b),
    ensures
        valid_utf8(b),
        forall|j: int| 0 <= j <= b.len() ==> #[trigger] is_char_boundary(b, j),
{
    lemma_ascii_utf8(b);
    vstd::utf8::is_char_boundary_start_end_of_seq(b);
    assert forall|j: int| 0 <= j <= b.len() implies #[trigger] is_char_boundary(b, j) by {
        if j < b.len() {
            vstd::utf8::is_char_boundary_iff_not_is_continuation_byte(b, j);
        }
    }
}

/// The scans over `p + s` from a position inside `s` end where the scans
/// over `s` end, shifted by the length of `p`.
proof fn lemma_scans_shift(p: Seq<u8>, s: Seq<u8>, m: int)
    requires
        0 <= m,
    ensures
        comment_end(p + s, p.len() + m) == p.len() + comment_end(s, m),
        ident_end(p + s, p.len() + m) == p.len() + ident_end(s, m),
        digits_end(p + s, p.len() + m) == p.len() + digits_end(s, m),
    decreases s.len() - m,
{
    if m < s.len() {
        assert((p + s)[p.len() + m] == s[m]);
        lemma_scans_shift(p, s, m + 1);
    }
}

/// Lexing `p + s` from a position inside `s` gives what lexing `s` alone
/// from the same place gives.
proof fn lemma_lex_shift(p: Seq<u8>, s: Seq<u8>, k: int, acc: Seq<SpecToken>)
    requires
        all_ascii(p + s),
        0 <= k,
    ensures
        lex_from(p + s, p.len() + k, acc) == lex_from(s, k, acc),
    decreases s.len() - k,
{
    let b = p + s;
    let n = p.len() as int;
    let i = n + k;
    if k < s.len() {
        assert(all_ascii(s)) by {
            assert forall|x: int| 0 <= x < s.len() implies #[trigger] s[x] < 0x80 by {
                assert(b[n + x] == s[x]);
            }
        }
        lemma_ascii_boundaries(b);
        lemma_ascii_boundaries(s);
        lemma_scans_shift(p, s, k + 1);
        lemma_scan_ends(s, k + 1);
        assert(b[i] == s[k]);
        if k + 1 < s.len() {
            assert(b[i + 1] == s[k + 1]);
        }
        let c = s[k];
        if c == 32 || c == 10 {
            lemma_lex_shift(p, s, k + 1, acc);
        } else if c == 35 {
            lemma_lex_shift(p, s, comment_end(s, k + 1), acc);
        } else if single_byte_token(c) is Some {
            lemma_lex_shift(p, s, k + 1, acc.push(single_byte_token(c)->0));
        } else if c == 61 || c == 60 || c == 62 || c == 33 {
            let two = k + 1 < s.len() && s[k + 1] == 61;
            let t = if c == 61 {
                if two { SpecToken::Equality } else { SpecToken::Assign }
            } else if c == 60 {
                if two { SpecToken::LessEqual } else { SpecToken::Less }
            } else if c == 62 {
                if two { SpecToken::GreaterEqual } else { SpecToken::Greater }
            } else {
                SpecToken::NotEqual
            };
            if two {
                lemma_lex_shift(p, s, k + 2, acc.push(t));
            } else if c != 33 {
                lemma_lex_shift(p, s, k + 1, acc.push(t));
            }
        } else if ascii_letter(c) {
            let j = ident_end(s, k + 1);
            assert(b.subrange(i, n + j) =~= s.subrange(k, j));
            lemma_lex_shift(p, s, j, acc.push(keyword_or_ident(decode_utf8(s.subrange(k, j)))));
        } else if 48 <= c && c <= 57 {
            let j = digits_end(s, k + 1);
            assert(b.subrange(i, n + j) =~= s.subrange(k, j));
            if j < s.len() {
                assert(b[n + j] == s[j]);
                assert(b.subrange(i, n + j + 1) =~= s.subrange(k, j + 1));
            }
            lemma_lex_shift(p, s, j, acc.push(SpecToken::Num(digits_value(s.subrange(k, j)) as i32)));
        }
    }
}

/// Lexing with one more token in front of those produced so far puts that
/// token in front of the result.
proof fn lemma_lex_prepend(b: Seq<u8>, i: int, t: SpecToken, acc: Seq<SpecToken>)
    requires
        0 <= i,
    ensures
        lex_from(b, i, seq![t] + acc) == prepend_token(t, lex_from(b, i, acc)),
    decreases b.len() - i,
{
    if i >= b.len() {
        assert((seq![t] + acc).push(SpecToken::End) =~= seq![t] + acc.push(SpecToken::End));
    } else {
        let c = b[i];
        lemma_scan_ends(b, i + 1);
        if c == 32 || c == 10 {
            lemma_lex_prepend(b, i + 1, t, acc);
        } else if c == 35 {
            lemma_lex_prepend(b, comment_end(b, i + 1), t, acc);
        } else if single_byte_token(c) is Some {
            let x = single_byte_token(c)->0;
            assert((seq![t] + acc).push(x) =~= seq![t] + acc.push(x));
            lemma_lex_prepend(b, i + 1, t, acc.push(x));
        } else if c == 61 || c == 60 || c == 62 || c == 33 {
            let two = i + 1 < b.len() && b[i + 1] == 61;
            let x = if c == 61 {
                if two { SpecToken::Equality } else { SpecToken::Assign }
            } else if c == 60 {
                if two { SpecToken::LessEqual } else { SpecToken::Less }
            } else if c == 62 {
                if two { SpecToken::GreaterEqual } else { SpecToken::Greater }
            } else {
                SpecToken::NotEqual
            };
            assert((seq![t] + acc).push(x) =~= seq![t] + acc.push(x));
            if two {
                lemma_lex_prepend(b, i + 2, t, acc.push(x));
            } else if c != 33 {
                lemma_lex_prepend(b, i + 1, t, acc.push(x));
            }
        } else if ascii_letter(c) {
            let j = ident_end(b, i + 1);
            let x = keyword_or_ident(decode_utf8(b.subrange(i, j)));
            assert((seq![t] + acc).push(x) =~= seq![t] + acc.push(x));
            lemma_lex_prepend(b, j, t, acc.push(x));
        } else if 48 <= c && c <= 57 {
            let j = digits_end(b, i + 1);
            let x = SpecToken::Num(digits_value(b.subrange(i, j)) as i32);
            assert((seq![t] + acc).push(x) =~= seq![t] + acc.push(x));
            lemma_lex_prepend(b, j, t, acc.push(x));
        }
    }
}

/// The word `w` ends where the first byte that does not continue an
/// identifier stands.
proof fn lemma_word_end(w: Seq<u8>, s: Seq<u8>, m: int)
    requires
        1 <= m <= w.len(),
        forall|k: int| 1 <= k < w.len() ==> ident_byte(#[trigger] w[k]),
        s.len() == 0 || !ident_byte(s[0]),
    ensures
        ident_end(w + s, m) == w.len(),
    decreases w.len() - m,
{
    if m < w.len() {
        assert((w + s)[m] == w[m]);
        lemma_word_end(w, s, m + 1);
    } else if s.len() > 0 {
        assert((w + s)[m] == s[0]);
    }
}

/// A word `w` of ASCII letters, digits and underscores that begins with a
/// letter (`A`..`Z` or `a`..`z`), followed by ASCII text `s` that does not
/// go on with such a byte, lexes to the keyword or identifier token spelled
/// by `w` in front of the tokens of `s`; the lexer gives an error for
/// `w + s` exactly when it gives that error for `s`.
pub proof fn law_lex_word(w: Seq<u8>, s: Seq<u8>)
    requires
        all_ascii(w + s),
        w.len() >= 1,
        ascii_letter(w[0]),
        forall|k: int| 1 <= k < w.len() ==> ident_byte(#[trigger] w[k]),
        s.len() == 0 || !ident_byte(s[0]),
    ensures
        lex_spec(w + s) == prepend_token(keyword_or_ident(ascii_text(w)), lex_spec(s)),
{
    let b = w + s;
    assert(b[0] == w[0]);
    lemma_scan_ends(b, 1);
    lemma_word_end(w, s, 1);
    lemma_ascii_boundaries(b);
    assert(b.subrange(0, w.len() as int) =~= w);
    assert(all_ascii(w)) by {
        assert forall|k: int| 0 <= k < w.len() implies #[trigger] w[k] < 0x80 by {
            assert(b[k] == w[k]);
        }
    }
    lemma_ascii_utf8(w);
    let t = keyword_or_ident(ascii_text(w));
    assert(single_byte_token(b[0]) is None);
    assert(lex_from(b, 0, seq![]) == lex_from(b, w.len() as int, seq![t]));
    lemma_lex_shift(w, s, 0, seq![t]);
    assert(seq![t] =~= seq![t] + Seq::<SpecToken>::empty());
    lemma_lex_prepend(s, 0, t, seq![]);
}

/// The digits `d` end where the first byte that is not a digit stands.
proof fn lemma_digits_end(d: Seq<u8>, s: Seq<u8>, m: int)
    requires
        1 <= m <= d.len(),
        forall|k: int| 0 <= k < d.len() ==> ascii_digit(#[trigger] d[k]),
        s.len() == 0 || !ascii_digit(s[0]),
    ensures
        digits_end(d + s, m) == d.len(),
    decreases d.len() - m,
{
    if m < d.len() {
        assert((d + s)[m] == d[m]);
        lemma_digits_end(d, s, m + 1);
    } else if s.len() > 0 {
        assert((d + s)[m] == s[0]);
    }
}

proof fn lemma_ascii_parts(p: Seq<u8>, s: Seq<u8>)
    requires
        all_ascii(p + s),
    ensures
        all_ascii(p),
        all_ascii(s),
{
    assert forall|k: int| 0 <= k < p.len() implies #[trigger] p[k] < 0x80 by {
        assert((p + s)[k] == p[k]);
    }
    assert forall|k: int| 0 <= k < s.len() implies #[trigger] s[k] < 0x80 by {
        assert((p + s)[p.len() + k] == s[k]);
    }
}

/// A run `d` of ASCII digits, followed by ASCII text `s` that does not go
/// on with a digit: when a letter follows, the lexer refuses the text as
/// an invalid identifier; else a value above `i32::MAX` is refused as out
/// of range, and any other value lexes to its number token in front of
/// the tokens of `s`.
pub proof fn law_lex_number(d: Seq<u8>, s: Seq<u8>)
    requires
        all_ascii(d + s),
        d.len() >= 1,
        forall|k: int| 0 <= k < d.len() ==> ascii_digit(#[trigger] d[k]),
        s.len() == 0 || !ascii_digit(s[0]),
    ensures
        lex_spec(d + s) == if s.len() > 0 && latin1_alphabetic(s[0]) {
            Some(Err("Invalid identifier: "@ + ascii_text(d.push(s[0]))))
        } else if digits_value(d) > i32::MAX {
            Some(Err("Number out of range: "@ + ascii_text(d)))
        } else {
            prepend_token(SpecToken::Num(digits_value(d) as i32), lex_spec(s))
        },
{
    let b = d + s;
    let n = d.len() as int;
    assert(b[0] == d[0]);
    lemma_scan_ends(b, 1);
    lemma_digits_end(d, s, 1);
    lemma_ascii_boundaries(b);
    lemma_ascii_parts(d, s);
    assert(b.subrange(0, n) =~= d);
    assert(single_byte_token(b[0]) is None);
    assert(!ascii_letter(b[0]));
    if s.len() > 0 && latin1_alphabetic(s[0]) {
        assert(b[n] == s[0]);
        assert(b.subrange(0, n + 1) =~= d.push(s[0]));
        assert(all_ascii(d.push(s[0]))) by {
            assert forall|k: int| 0 <= k < d.push(s[0]).len() implies #[trigger] d.push(s[0])[k] < 0x80 by {
                assert(d.push(s[0])[k] == b[k]);
            }
        }
        lemma_ascii_utf8(d.push(s[0]));
    } else if digits_value(d) > i32::MAX {
        assert(crate::lexer::scanner::digits_text(d) =~= ascii_text(d));
    } else {
        if s.len() > 0 {
            assert(b[n] == s[0]);
        }
        let t = SpecToken::Num(digits_value(d) as i32);
        assert(lex_from(b, 0, seq![]) == lex_from(b, n, seq![t]));
        lemma_lex_shift(d, s, 0, seq![t]);
        assert(seq![t] =~= seq![t] + Seq::<SpecToken>::empty());
        lemma_lex_prepend(s, 0, t, seq![]);
    }
}

/// The token of each operator and punctuation symbol, by its spelling.
pub open spec fn symbol_token(o: Seq<u8>) -> Option<SpecToken> {
    if o == seq![40u8] { Some(SpecToken::LeftParen) }
    else if o == seq![41u8] { Some(SpecToken::RightParen) }
    else if o == seq![123u8] { Some(SpecToken::LeftCurly) }
    else if o == seq![125u8] { Some(SpecToken::RightCurly) }
    else if o == seq![91u8] { Some(SpecToken::LeftBracket) }
    else if o == seq![93u8] { Some(SpecToken::RightBracket) }
    else if o == seq![44u8] { Some(SpecToken::Comma) }
    else if o == seq![59u8] { Some(SpecToken::Semicolon) }
    else if o == seq![43u8] { Some(SpecToken::Plus) }
    else if o == seq![45u8] { Some(SpecToken::Subtract) }
    else if o == seq![42u8] { Some(SpecToken::Multiply) }
    else if o == seq![47u8] { Some(SpecToken::Divide) }
    else if o == seq![37u8] { Some(SpecToken::Modulus) }
    else if o == seq![61u8] { Some(SpecToken::Assign) }
    else if o == seq![60u8] { Some(SpecToken::Less) }
    else if o == seq![62u8] { Some(SpecToken::Greater) }
    else if o == seq![61u8, 61u8] { Some(SpecToken::Equality) }
    else if o == seq![33u8, 61u8] { Some(SpecToken::NotEqual) }
    else if o == seq![60u8, 61u8] { Some(SpecToken::LessEqual) }
    else if o == seq![62u8, 61u8] { Some(SpecToken::GreaterEqual) }
    else { None }
}

/// Each symbol `( ) { } [ ] , ; + - * / % = < > == != <= >=` lexes to its
/// token in front of the tokens of the ASCII text `s` after it (where
/// `=`, `<` and `>` alone are not followed by `=`, which would make them
/// part of a two-byte symbol).
pub proof fn law_lex_symbol(o: Seq<u8>, s: Seq<u8>)
    requires
        all_ascii(o + s),
        symbol_token(o) is Some,
        o.len() == 1 && (o[0] == 61 || o[0] == 60 || o[0] == 62) ==> s.len() == 0 || s[0] != 61,
    ensures
        lex_spec(o + s) == prepend_token(symbol_token(o)->0, lex_spec(s)),
{
    let b = o + s;
    let t = symbol_token(o)->0;
    assert(o.len() == 1 || o.len() == 2);
    assert(b[0] == o[0]);
    if o.len() == 2 {
        assert(b[1] == o[1]);
    } else if s.len() > 0 {
        assert(b[1] == s[0]);
    }
    assert(lex_from(b, 0, seq![]) == lex_from(b, o.len() as int, seq![t]));
    lemma_lex_shift(o, s, 0, seq![t]);
    assert(seq![t] =~= seq![t] + Seq::<SpecToken>::empty());
    lemma_lex_prepend(s, 0, t, seq![]);
}

/// A blank (a space or a newline), or a comment (`#` and the bytes up to
/// the end of the line), in front of ASCII text `s` lexes as `s` alone.
pub proof fn law_lex_blank_or_comment(c: Seq<u8>, s: Seq<u8>)
    requires
        all_ascii(c + s),
        c == seq![32u8] || c == seq![10u8] || (c.len() >= 1 && c[0] == 35
            && (forall|k: int| 1 <= k < c.len() ==> #[trigger] c[k] != 10) && (s.len() == 0 || s[0] == 10)),
    ensures
        lex_spec(c + s) == lex_spec(s),
{
    let b = c + s;
    assert(b[0] == c[0]);
    if c[0] == 35 {
        assert(comment_end(b, 1) == c.len()) by {
            lemma_comment_end(c, s, 1);
        }
    }
    assert(lex_from(b, 0, seq![]) == lex_from(b, c.len() as int, seq![]));
    lemma_lex_shift(c, s, 0, seq![]);
}

proof fn lemma_comment_end(c: Seq<u8>, s: Seq<u8>, m: int)
    requires
        1 <= m <= c.len(),
        forall|k: int| 1 <= k < c.len() ==> #[trigger] c[k] != 10,
        s.len() == 0 || s[0] == 10,
    ensures
        comment_end(c + s, m) == c.len(),
    decreases c.len() - m,
{
    if m < c.len() {
        assert((c + s)[m] == c[m]);
        lemma_comment_end(c, s, m + 1);
    } else if s.len() > 0 {
        assert((c + s)[m] == s[0]);
    }
}

/// An ASCII byte that starts no token (no blank, comment, symbol, letter
/// or digit), and `!` without `=` after it, are refused with an error that
/// names the byte.
pub proof fn law_lex_unrecognized(c: u8, s: Seq<u8>)
    requires
        c < 0x80,
        c != 32 && c != 10 && c != 35,
        symbol_token(seq![c]) is None,
        !ascii_letter(c),
        !ascii_digit(c),
        c == 33 ==> s.len() == 0 || s[0] != 61,
    ensures
        lex_spec(seq![c] + s) == Some(Err::<Seq<SpecToken>, Seq<char>>("Unrecognized symbol '"@ + seq![c as char] + "'"@)),
{
    let b = seq![c] + s;
    assert(b[0] == c);
    if s.len() > 0 {
        assert(b[1] == s[0]);
    }
    if c == 33 {
        reveal_strlit("Unrecognized symbol '!'");
        reveal_strlit("Unrecognized symbol '");
        reveal_strlit("'");
        assert("Unrecognized symbol '!'"@ =~= "Unrecognized symbol '"@ + seq![c as char] + "'"@);
    }
}

} // verus!
