//! The lexical analyser: reads one token from the front of the source.

use vstd::prelude::*;
use vstd::std_specs::iter::IteratorSpec;
use crate::chars::{is_digit, is_lower, is_upper, is_ws, spec_is_digit, spec_is_lower, spec_is_upper, spec_is_ws};
use crate::error::{ParseError, ParseErrorView, lexical_error};
use crate::token::{SpecToken, Token, TokenKind, keyword_kind, spec_token, token};

verus! {

broadcast use vstd::string::group_string_axioms;

/// What the lexeme read so far is made of.
#[derive(Clone, Copy, Debug, PartialEq, Eq, Structural)]
pub enum Scan {
    /// Nothing has been read yet.
    Empty,
    /// Lowercase letters.
    Word,
    /// Digits.
    Number,
}

/// The remaining source that is reported once the source holds nothing
/// but whitespace.
pub open spec fn no_code_left() -> Seq<char> {
    "No Code Left"@
}

/// The pending word or number read so far, as a token, with the source
/// from position `i` on as the remaining source.
pub open spec fn pending(s: Seq<char>, i: int, lexeme: Seq<char>, state: Scan) -> Result<(Seq<char>, SpecToken), ParseErrorView> {
    if state == Scan::Number {
        Ok((s.subrange(i, s.len() as int), SpecToken { kind: TokenKind::Num, lexeme }))
    } else {
        match spec_token(lexeme, false) {
            Ok(t) => Ok((s.subrange(i, s.len() as int), t)),
            Err(e) => Err(e),
        }
    }
}

/// Reads on from position `i` of `s`, with `lexeme` read so far.
///
/// Whitespace before a lexeme is skipped. An uppercase letter is a lexical
/// error. A number ends at the first character that is not a digit, and a
/// word at the first that is not a lowercase letter (whitespace included);
/// that character stays in the remaining source. A word or number also
/// ends at the end of the source. Any other character is a symbol lexeme of
/// its own. A source that holds nothing but whitespace gives the
/// end-of-source token.
pub open spec fn scan(s: Seq<char>, i: int, lexeme: Seq<char>, state: Scan) -> Result<(Seq<char>, SpecToken), ParseErrorView>
    decreases s.len() - i,
{
    if i >= s.len() {
        if state == Scan::Empty {
            Ok((no_code_left(), SpecToken { kind: TokenKind::Eof, lexeme: Seq::empty() }))
        } else {
            pending(s, i, lexeme, state)
        }
    } else {
        let c = s[i];
        if spec_is_ws(c) {
            if state == Scan::Empty {
                scan(s, i + 1, lexeme, state)
            } else {
                pending(s, i, lexeme, state)
            }
        } else if spec_is_upper(c) {
            Err(lexical_error(seq![c]))
        } else if state == Scan::Number && !spec_is_digit(c) {
            pending(s, i, lexeme, state)
        } else if state == Scan::Word && !spec_is_lower(c) {
            pending(s, i, lexeme, state)
        } else if spec_is_lower(c) {
            scan(s, i + 1, lexeme.push(c), Scan::Word)
        } else if spec_is_digit(c) {
            scan(s, i + 1, lexeme.push(c), Scan::Number)
        } else {
            match spec_token(lexeme.push(c), true) {
                Ok(t) => Ok((s.subrange(i + 1, s.len() as int), t)),
                Err(e) => Err(e),
            }
        }
    }
}

/// The first token of `s` and the source that remains after it.
pub open spec fn spec_lex(s: Seq<char>) -> Result<(Seq<char>, SpecToken), ParseErrorView> {
    scan(s, 0, Seq::empty(), Scan::Empty)
}

pub open spec fn lex_result_view(r: Result<(String, Token), ParseError>) -> Result<(Seq<char>, SpecToken), ParseErrorView> {
    match r {
        Ok((rest, t)) => Ok((rest@, t@)),
        Err(e) => Err(e@),
    }
}

/// The pending word or number as a token, with the source from `index`
/// on as the remaining source.
fn finish_pending(source: &str, start: usize, index: usize, n: usize, state: Scan) -> (res: Result<(String, Token), ParseError>)
    requires
        start <= index <= n,
        n == source@.len(),
    ensures
        lex_result_view(res) == pending(source@, index as int, source@.subrange(start as int, index as int), state),
{
    let lexeme = String::from_str(source.substring_char(start, index));
    let rest = String::from_str(source.substring_char(index, n));
    if state == Scan::Number {
        Ok((rest, Token { kind: TokenKind::Num, lexeme }))
    } else {
        match token(&lexeme, false) {
            Ok(t) => Ok((rest, t)),
            Err(e) => Err(e),
        }
    }
}

/// Reads one token from the front of `source` and returns the source that
/// remains after it, together with the token.
pub fn lex(source: &str) -> (res: Result<(String, Token), ParseError>)
    ensures
        lex_result_view(res) == spec_lex(source@),
{
    let ghost s = source@;
    let n = source.unicode_len();
    let mut start: usize = 0;
    let mut state = Scan::Empty;
    let mut index: usize = 0;
    let mut it = source.chars();
    assert(s.subrange(0, 0) =~= Seq::<char>::empty());
    loop
        invariant
            n == s.len(),
            s == source@,
            start <= index <= n,
            state == Scan::Empty ==> start == index,
            it.remaining() == s.subrange(index as int, s.len() as int),
            scan(s, index as int, s.subrange(start as int, index as int), state) == spec_lex(s),
        decreases n - index,
    {
        let next = it.next();
        match next {
            None => {
                if state == Scan::Empty {
                    return Ok((String::from_str("No Code Left"), Token { kind: TokenKind::Eof, lexeme: String::new() }));
                }
                return finish_pending(source, start, index, n, state);
            },
            Some(c) => {
                assert(c == s[index as int]);
                assert(s.subrange(start as int, index + 1) =~= s.subrange(start as int, index as int).push(c));
                if is_ws(c) {
                    if state != Scan::Empty {
                        return finish_pending(source, start, index, n, state);
                    }
                    assert(s.subrange(start as int, index as int) =~= Seq::<char>::empty());
                    index = index + 1;
                    start = index;
                    assert(s.subrange(start as int, index as int) =~= Seq::<char>::empty());
                } else if is_upper(c) {
                    let text = String::from_str(source.substring_char(index, index + 1));
                    assert(text@ =~= seq![c]);
                    return Err(ParseError::lexical(text));
                } else if state == Scan::Number && !is_digit(c) {
                    return finish_pending(source, start, index, n, state);
                } else if state == Scan::Word && !is_lower(c) {
                    return finish_pending(source, start, index, n, state);
                } else if is_lower(c) {
                    state = Scan::Word;
                    index = index + 1;
                } else if is_digit(c) {
                    state = Scan::Number;
                    index = index + 1;
                } else {
                    let lexeme = String::from_str(source.substring_char(index, index + 1));
                    assert(lexeme@ =~= s.subrange(start as int, index as int).push(c));
                    let rest = String::from_str(source.substring_char(index + 1, n));
                    match token(&lexeme, true) {
                        Ok(t) => { return Ok((rest, t)); },
                        Err(e) => { return Err(e); },
                    }
                }
            },
        }
    }
}

proof fn lemma_scan_progress(s: Seq<char>, i: int, lexeme: Seq<char>, state: Scan)
    requires
        0 <= i <= s.len(),
        state != Scan::Empty ==> i >= 1,
    ensures
        scan(s, i, lexeme, state) matches Ok((r, t)) ==> {
            &&& t.kind == TokenKind::Eof ==> r == no_code_left()
            &&& t.kind != TokenKind::Eof ==> r.len() < s.len() && r =~= s.subrange(
                s.len() - r.len(),
                s.len() as int,
            )
        },
    decreases s.len() - i,
{
    assert(s.subrange(s.len() - s.subrange(i, s.len() as int).len(), s.len() as int) =~= s.subrange(i, s.len() as int));
    if i < s.len() {
        let c = s[i];
        assert(s.subrange(s.len() - s.subrange(i + 1, s.len() as int).len(), s.len() as int) =~= s.subrange(i + 1, s.len() as int));
        if spec_is_ws(c) {
            lemma_scan_progress(s, i + 1, lexeme, state);
        } else if spec_is_upper(c) {
        } else if state == Scan::Number && !spec_is_digit(c) {
        } else if state == Scan::Word && !spec_is_lower(c) {
        } else if spec_is_lower(c) {
            lemma_scan_progress(s, i + 1, lexeme.push(c), Scan::Word);
        } else if spec_is_digit(c) {
            lemma_scan_progress(s, i + 1, lexeme.push(c), Scan::Number);
        }
    }
}

/// Lexing makes progress: a token other than the end of the source leaves
/// a proper suffix of the source; at the end of the source the remaining
/// source reported is "No Code Left".
pub broadcast proof fn lemma_lex_progress(s: Seq<char>)
    ensures
        #[trigger] spec_lex(s) matches Ok((r, t)) ==> {
            &&& t.kind == TokenKind::Eof ==> r == no_code_left()
            &&& t.kind != TokenKind::Eof ==> r.len() < s.len() && r =~= s.subrange(
                s.len() - r.len(),
                s.len() as int,
            )
        },
{
    lemma_scan_progress(s, 0, Seq::empty(), Scan::Empty);
}

/// The lexeme of a word token: nonempty lowercase letters.
pub open spec fn is_word(lx: Seq<char>) -> bool {
    lx.len() > 0 && forall|j: int| 0 <= j < lx.len() ==> spec_is_lower(#[trigger] lx[j])
}

/// The lexeme of a number token: nonempty digits.
pub open spec fn is_number(lx: Seq<char>) -> bool {
    lx.len() > 0 && forall|j: int| 0 <= j < lx.len() ==> spec_is_digit(#[trigger] lx[j])
}

proof fn lemma_scan_shapes(s: Seq<char>, i: int, lexeme: Seq<char>, state: Scan)
    requires
        state == Scan::Empty ==> lexeme.len() == 0,
        state == Scan::Word ==> is_word(lexeme),
        state == Scan::Number ==> is_number(lexeme),
    ensures
        scan(s, i, lexeme, state) matches Ok((_, t)) ==> {
            &&& t.kind == TokenKind::Id ==> is_word(t.lexeme) && keyword_kind(t.lexeme) is None
            &&& t.kind == TokenKind::Num ==> is_number(t.lexeme)
        },
    decreases s.len() - i,
{
    if i < s.len() {
        let c = s[i];
        if spec_is_ws(c) {
            lemma_scan_shapes(s, i + 1, lexeme, state);
        } else if spec_is_upper(c) {
        } else if state == Scan::Number && !spec_is_digit(c) {
        } else if state == Scan::Word && !spec_is_lower(c) {
        } else if spec_is_lower(c) {
            assert(is_word(lexeme.push(c))) by {
                assert forall|j: int| 0 <= j < lexeme.push(c).len() implies spec_is_lower(#[trigger] lexeme.push(c)[j]) by {
                    if j < lexeme.len() {
                        assert(lexeme.push(c)[j] == lexeme[j]);
                    }
                }
            }
            lemma_scan_shapes(s, i + 1, lexeme.push(c), Scan::Word);
        } else if spec_is_digit(c) {
            assert(is_number(lexeme.push(c))) by {
                assert forall|j: int| 0 <= j < lexeme.push(c).len() implies spec_is_digit(#[trigger] lexeme.push(c)[j]) by {
                    if j < lexeme.len() {
                        assert(lexeme.push(c)[j] == lexeme[j]);
                    }
                }
            }
            lemma_scan_shapes(s, i + 1, lexeme.push(c), Scan::Number);
        }
    }
}

/// An identifier token is a nonempty word of lowercase letters that is not
/// a reserved word, and a number token is a nonempty string of digits.
pub proof fn lemma_lex_token_shapes(s: Seq<char>)
    ensures
        spec_lex(s) matches Ok((_, t)) ==> {
            &&& t.kind == TokenKind::Id ==> is_word(t.lexeme) && keyword_kind(t.lexeme) is None
            &&& t.kind == TokenKind::Num ==> is_number(t.lexeme)
        },
{
    lemma_scan_shapes(s, 0, Seq::empty(), Scan::Empty);
}

proof fn lemma_scan_shift(p: Seq<char>, s: Seq<char>, i: int, lexeme: Seq<char>, state: Scan)
    requires
        0 <= i <= s.len(),
    ensures
        scan(p + s, i + p.len(), lexeme, state) == scan(s, i, lexeme, state),
    decreases s.len() - i,
{
    let ps = p + s;
    assert(ps.subrange(i + p.len(), ps.len() as int) =~= s.subrange(i, s.len() as int));
    if i < s.len() {
        assert(ps[i + p.len()] == s[i]);
        assert(ps.subrange(i + p.len(), ps.len() as int) =~= s.subrange(i, s.len() as int));
        assert(ps.subrange(i + p.len() + 1, ps.len() as int) =~= s.subrange(i + 1, s.len() as int));
        let c = s[i];
        lemma_scan_shift(p, s, i + 1, lexeme, state);
        lemma_scan_shift(p, s, i + 1, lexeme.push(c), Scan::Word);
        lemma_scan_shift(p, s, i + 1, lexeme.push(c), Scan::Number);
    }
}

proof fn lemma_scan_skips_ws(p: Seq<char>, s: Seq<char>, k: int)
    requires
        0 <= k <= p.len(),
        forall|j: int| 0 <= j < p.len() ==> spec_is_ws(#[trigger] p[j]),
    ensures
        scan(p + s, k, Seq::empty(), Scan::Empty) == scan(p + s, p.len() as int, Seq::empty(), Scan::Empty),
    decreases p.len() - k,
{
    if k < p.len() {
        assert((p + s)[k] == p[k]);
        lemma_scan_skips_ws(p, s, k + 1);
    }
}

/// Whitespace in front of the source changes nothing that lex returns.
pub proof fn lemma_lex_leading_whitespace(p: Seq<char>, s: Seq<char>)
    requires
        forall|j: int| 0 <= j < p.len() ==> spec_is_ws(#[trigger] p[j]),
    ensures
        spec_lex(p + s) == spec_lex(s),
{
    lemma_scan_skips_ws(p, s, 0);
    lemma_scan_shift(p, s, 0, Seq::empty(), Scan::Empty);
}

/// `s` holds nothing but whitespace.
pub open spec fn is_blank(s: Seq<char>) -> bool {
    forall|j: int| 0 <= j < s.len() ==> spec_is_ws(#[trigger] s[j])
}

proof fn lemma_scan_not_eof(s: Seq<char>, i: int, lexeme: Seq<char>, state: Scan)
    requires
        state != Scan::Empty,
    ensures
        scan(s, i, lexeme, state) matches Ok((_, t)) ==> t.kind != TokenKind::Eof,
    decreases s.len() - i,
{
    if i < s.len() {
        let c = s[i];
        lemma_scan_not_eof(s, i + 1, lexeme.push(c), Scan::Word);
        lemma_scan_not_eof(s, i + 1, lexeme.push(c), Scan::Number);
    }
}

proof fn lemma_scan_blank(s: Seq<char>, i: int)
    requires
        0 <= i <= s.len(),
    ensures
        (scan(s, i, Seq::empty(), Scan::Empty) matches Ok((_, t)) && t.kind == TokenKind::Eof)
            <==> (forall|j: int| i <= j < s.len() ==> spec_is_ws(#[trigger] s[j])),
    decreases s.len() - i,
{
    if i < s.len() {
        let c = s[i];
        lemma_scan_blank(s, i + 1);
        let e = Seq::<char>::empty();
        lemma_scan_not_eof(s, i + 1, e.push(c), Scan::Word);
        lemma_scan_not_eof(s, i + 1, e.push(c), Scan::Number);
    }
}

proof fn lemma_scan_eof_token(s: Seq<char>, i: int)
    ensures
        scan(s, i, Seq::empty(), Scan::Empty) matches Ok((_, t)) ==> (t.kind == TokenKind::Eof
            ==> t.lexeme == Seq::<char>::empty()),
    decreases s.len() - i,
{
    if i < s.len() {
        let c = s[i];
        lemma_scan_eof_token(s, i + 1);
        let e = Seq::<char>::empty();
        lemma_scan_not_eof(s, i + 1, e.push(c), Scan::Word);
        lemma_scan_not_eof(s, i + 1, e.push(c), Scan::Number);
    }
}

/// Lexing gives the end-of-source token exactly when the source holds
/// nothing but whitespace; that token has an empty lexeme.
pub proof fn lemma_lex_eof_iff_blank(s: Seq<char>)
    ensures
        (spec_lex(s) matches Ok((_, t)) && t.kind == TokenKind::Eof) <==> is_blank(s),
        spec_lex(s) matches Ok((_, t)) ==> (t.kind == TokenKind::Eof ==> t.lexeme == Seq::<char>::empty()),
{
    lemma_scan_blank(s, 0);
    lemma_scan_eof_token(s, 0);
}

/// A token that ends at or after position `i` leaves at most the source
/// from `i` on; when it leaves all of it, the token is the word or number
/// pending at `i`.
pub proof fn lemma_scan_rest_len(s: Seq<char>, i: int, lexeme: Seq<char>, state: Scan)
    requires
        0 <= i <= s.len(),
    ensures
        scan(s, i, lexeme, state) matches Ok((rr, t)) ==> (t.kind != TokenKind::Eof ==> {
            &&& rr.len() <= s.len() - i
            &&& rr.len() == s.len() - i ==> state != Scan::Empty && scan(s, i, lexeme, state) == pending(s, i, lexeme, state)
        }),
    decreases s.len() - i,
{
    if i < s.len() {
        let c = s[i];
        lemma_scan_rest_len(s, i + 1, lexeme, state);
        lemma_scan_rest_len(s, i + 1, lexeme.push(c), Scan::Word);
        lemma_scan_rest_len(s, i + 1, lexeme.push(c), Scan::Number);
    }
}

/// Inserting nonempty whitespace `w` at a point `x.len()` that a token of
/// `x + r` does not read past leaves that token unchanged, whatever source
/// `r2` follows the whitespace; the whitespace and `r2` remain after it.
pub proof fn lemma_scan_insert(x: Seq<char>, w: Seq<char>, r: Seq<char>, r2: Seq<char>, i: int, lexeme: Seq<char>, state: Scan)
    requires
        0 <= i <= x.len(),
        w.len() > 0,
        is_blank(w),
        scan(x + r, i, lexeme, state) matches Ok((rr, t)) && t.kind != TokenKind::Eof && rr.len() >= r.len(),
    ensures
        ({
            let (rr, t) = scan(x + r, i, lexeme, state)->Ok_0;
            let k = x.len() + r.len() - rr.len();
            scan(x + w + r2, i, lexeme, state) == Ok::<(Seq<char>, SpecToken), ParseErrorView>((x.subrange(k, x.len() as int) + w + r2, t))
        }),
    decreases x.len() - i,
{
    let s = x + r;
    let s2 = x + w + r2;
    lemma_scan_rest_len(s, i, lexeme, state);
    let (rr, t) = scan(s, i, lexeme, state)->Ok_0;
    if i < x.len() {
        let c = x[i];
        assert(s[i] == c && s2[i] == c);
        assert(s.subrange(i, s.len() as int) =~= x.subrange(i, x.len() as int) + r);
        assert(s2.subrange(i, s2.len() as int) =~= x.subrange(i, x.len() as int) + w + r2);
        assert(s.subrange(i + 1, s.len() as int) =~= x.subrange(i + 1, x.len() as int) + r);
        assert(s2.subrange(i + 1, s2.len() as int) =~= x.subrange(i + 1, x.len() as int) + w + r2);
        if spec_is_ws(c) && state == Scan::Empty {
            lemma_scan_insert(x, w, r, r2, i + 1, lexeme, state);
        } else if spec_is_ws(c) || spec_is_upper(c) || (state == Scan::Number && !spec_is_digit(c)) || (state == Scan::Word && !spec_is_lower(c)) {
            assert(rr =~= x.subrange(i, x.len() as int) + r);
        } else if spec_is_lower(c) {
            lemma_scan_insert(x, w, r, r2, i + 1, lexeme.push(c), Scan::Word);
        } else if spec_is_digit(c) {
            lemma_scan_insert(x, w, r, r2, i + 1, lexeme.push(c), Scan::Number);
        } else {
            assert(rr =~= x.subrange(i + 1, x.len() as int) + r);
        }
    } else {
        assert(s.subrange(i, s.len() as int) =~= r);
        assert(s2[i] == w[0]);
        assert(s2.subrange(i, s2.len() as int) =~= w + r2);
        assert(x.subrange(x.len() as int, x.len() as int) + w + r2 =~= w + r2);
    }
}

/// A symbol token: one of `; : , . ( ) =`.
pub open spec fn is_symbol_kind(k: TokenKind) -> bool {
    ||| k == TokenKind::Semicolon
    ||| k == TokenKind::Colon
    ||| k == TokenKind::Comma
    ||| k == TokenKind::Period
    ||| k == TokenKind::LParen
    ||| k == TokenKind::RParen
    ||| k == TokenKind::Assign
}

proof fn lemma_words_are_not_symbols(lx: Seq<char>)
    requires
        is_word(lx),
    ensures
        keyword_kind(lx) matches Some(k) ==> !is_symbol_kind(k),
{
    reveal_strlit(";");
    reveal_strlit(":");
    reveal_strlit(",");
    reveal_strlit(".");
    reveal_strlit("(");
    reveal_strlit(")");
    reveal_strlit("=");
    assert(spec_is_lower(lx[0]));
}

proof fn lemma_scan_extend(x: Seq<char>, y: Seq<char>, i: int, lexeme: Seq<char>, state: Scan)
    requires
        0 <= i <= x.len(),
        state == Scan::Empty ==> lexeme.len() == 0,
        state == Scan::Word ==> is_word(lexeme),
        state == Scan::Number ==> is_number(lexeme),
        scan(x, i, lexeme, state) matches Ok((rr, t)) && t.kind != TokenKind::Eof && (rr.len() > 0 || is_symbol_kind(t.kind)),
    ensures
        ({
            let (rr, t) = scan(x, i, lexeme, state)->Ok_0;
            scan(x + y, i, lexeme, state) == Ok::<(Seq<char>, SpecToken), ParseErrorView>((rr + y, t))
        }),
    decreases x.len() - i,
{
    let s2 = x + y;
    let (rr, t) = scan(x, i, lexeme, state)->Ok_0;
    if i < x.len() {
        let c = x[i];
        assert(s2[i] == c);
        assert(s2.subrange(i, s2.len() as int) =~= x.subrange(i, x.len() as int) + y);
        assert(s2.subrange(i + 1, s2.len() as int) =~= x.subrange(i + 1, x.len() as int) + y);
        if spec_is_ws(c) && state == Scan::Empty {
            lemma_scan_extend(x, y, i + 1, lexeme, state);
        } else if spec_is_ws(c) || spec_is_upper(c) || (state == Scan::Number && !spec_is_digit(c)) || (state == Scan::Word && !spec_is_lower(c)) {
        } else if spec_is_lower(c) {
            assert(is_word(lexeme.push(c))) by {
                assert forall|j: int| 0 <= j < lexeme.push(c).len() implies spec_is_lower(#[trigger] lexeme.push(c)[j]) by {
                    if j < lexeme.len() {
                        assert(lexeme.push(c)[j] == lexeme[j]);
                    }
                }
            }
            lemma_scan_extend(x, y, i + 1, lexeme.push(c), Scan::Word);
        } else if spec_is_digit(c) {
            assert(is_number(lexeme.push(c))) by {
                assert forall|j: int| 0 <= j < lexeme.push(c).len() implies spec_is_digit(#[trigger] lexeme.push(c)[j]) by {
                    if j < lexeme.len() {
                        assert(lexeme.push(c)[j] == lexeme[j]);
                    }
                }
            }
            lemma_scan_extend(x, y, i + 1, lexeme.push(c), Scan::Number);
        } else {
        }
    } else {
        if state == Scan::Word {
            lemma_words_are_not_symbols(lexeme);
        }
    }
}

/// A token that does not end at the end of the source (it leaves some
/// source, or it is a symbol) is read alike when more source follows.
pub proof fn lemma_lex_extend(x: Seq<char>, y: Seq<char>)
    requires
        spec_lex(x) matches Ok((r, t)) && t.kind != TokenKind::Eof && (r.len() > 0 || is_symbol_kind(t.kind)),
    ensures
        spec_lex(x + y) == Ok::<(Seq<char>, SpecToken), ParseErrorView>((spec_lex(x)->Ok_0.0 + y, spec_lex(x)->Ok_0.1)),
{
    lemma_scan_extend(x, y, 0, Seq::empty(), Scan::Empty);
}

proof fn lemma_keyword_literals()
    ensures
        keyword_kind("definitions"@) == Some(TokenKind::Definitions),
        keyword_kind("operations"@) == Some(TokenKind::Operations),
        keyword_kind("end"@) == Some(TokenKind::End),
        keyword_kind(";"@) == Some(TokenKind::Semicolon),
        keyword_kind(":"@) == Some(TokenKind::Colon),
        keyword_kind("."@) == Some(TokenKind::Period),
{
    reveal_strlit("definitions");
    reveal_strlit("operations");
    reveal_strlit("point");
    reveal_strlit("circle");
    reveal_strlit("square");
    reveal_strlit("print");
    reveal_strlit("contained");
    reveal_strlit("intersects");
    reveal_strlit("end");
    reveal_strlit(";");
    reveal_strlit(":");
    reveal_strlit(",");
    reveal_strlit(".");
    assert("operations"@ != "definitions"@) by { assert("operations"@[0] != "definitions"@[0]); }
    assert("end"@ != "definitions"@) by { assert("end"@[0] != "definitions"@[0]); }
    assert("end"@ != "operations"@) by { assert("end"@[0] != "operations"@[0]); }
    assert("end"@ != "point"@);
    assert("end"@ != "circle"@);
    assert("end"@ != "square"@);
    assert("end"@ != "print"@);
    assert("end"@ != "contained"@);
    assert("end"@ != "intersects"@);
    assert(";"@ != "definitions"@) by { assert(";"@[0] != "definitions"@[0]); }
    assert(";"@ != "operations"@) by { assert(";"@[0] != "operations"@[0]); }
    assert(";"@ != "point"@) by { assert(";"@[0] != "point"@[0]); }
    assert(";"@ != "circle"@) by { assert(";"@[0] != "circle"@[0]); }
    assert(";"@ != "square"@) by { assert(";"@[0] != "square"@[0]); }
    assert(";"@ != "print"@) by { assert(";"@[0] != "print"@[0]); }
    assert(";"@ != "contained"@) by { assert(";"@[0] != "contained"@[0]); }
    assert(";"@ != "intersects"@) by { assert(";"@[0] != "intersects"@[0]); }
    assert(";"@ != "end"@) by { assert(";"@[0] != "end"@[0]); }
    assert(":"@ != "definitions"@) by { assert(":"@[0] != "definitions"@[0]); }
    assert(":"@ != "operations"@) by { assert(":"@[0] != "operations"@[0]); }
    assert(":"@ != "point"@) by { assert(":"@[0] != "point"@[0]); }
    assert(":"@ != "circle"@) by { assert(":"@[0] != "circle"@[0]); }
    assert(":"@ != "square"@) by { assert(":"@[0] != "square"@[0]); }
    assert(":"@ != "print"@) by { assert(":"@[0] != "print"@[0]); }
    assert(":"@ != "contained"@) by { assert(":"@[0] != "contained"@[0]); }
    assert(":"@ != "intersects"@) by { assert(":"@[0] != "intersects"@[0]); }
    assert(":"@ != "end"@) by { assert(":"@[0] != "end"@[0]); }
    assert(":"@ != ";"@) by { assert(":"@[0] != ";"@[0]); }
    assert("."@ != ";"@) by { assert("."@[0] != ";"@[0]); }
    assert("."@ != ":"@) by { assert("."@[0] != ":"@[0]); }
    assert("."@ != ","@) by { assert("."@[0] != ","@[0]); }
}

proof fn lemma_lex_symbol(s: Seq<char>, k: TokenKind)
    requires
        s.len() == 1,
        !spec_is_ws(s[0]) && !spec_is_upper(s[0]) && !spec_is_lower(s[0]) && !spec_is_digit(s[0]),
        keyword_kind(s) == Some(k),
    ensures
        spec_lex(s) matches Ok((r, t)) && r.len() == 0 && t.kind == k,
{
    assert(Seq::<char>::empty().push(s[0]) =~= s);
}

/// How the fixed words of a program lex.
pub proof fn lemma_literal_lexing()
    ensures
        spec_lex("definitions:"@) matches Ok((r, t)) && r == ":"@ && t.kind == TokenKind::Definitions,
        spec_lex("operations:"@) matches Ok((r, t)) && r == ":"@ && t.kind == TokenKind::Operations,
        spec_lex("end."@) matches Ok((r, t)) && r == "."@ && t.kind == TokenKind::End,
        spec_lex(":"@) matches Ok((r, t)) && r.len() == 0 && t.kind == TokenKind::Colon,
        spec_lex(";"@) matches Ok((r, t)) && r.len() == 0 && t.kind == TokenKind::Semicolon,
        spec_lex("."@) matches Ok((r, t)) && r.len() == 0 && t.kind == TokenKind::Period,
{
    lemma_keyword_literals();
    reveal_strlit(":");
    reveal_strlit(";");
    reveal_strlit(".");
    lemma_lex_symbol(":"@, TokenKind::Colon);
    lemma_lex_symbol(";"@, TokenKind::Semicolon);
    lemma_lex_symbol("."@, TokenKind::Period);
    reveal_strlit("definitions:");
    reveal_strlit("definitions");
    reveal_strlit("operations:");
    reveal_strlit("operations");
    reveal_strlit("end.");
    reveal_strlit("end");
    let e = Seq::<char>::empty();
    assert(e.push('e').push('n').push('d') =~= "end"@);
    assert("end."@.subrange(3, 4) =~= "."@);
    reveal_with_fuel(scan, 5);
    assert(spec_lex("end."@) matches Ok((r, t)) && r == "."@ && t.kind == TokenKind::End);
    assert(e.push('d').push('e').push('f').push('i').push('n').push('i').push('t').push('i').push('o').push('n').push('s') =~= "definitions"@);
    assert("definitions:"@.subrange(11, 12) =~= ":"@);
    assert(e.push('o').push('p').push('e').push('r').push('a').push('t').push('i').push('o').push('n').push('s') =~= "operations"@);
    assert("operations:"@.subrange(10, 11) =~= ":"@);
    reveal_with_fuel(scan, 13);
}

} // verus!
