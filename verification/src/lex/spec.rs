//! What the lexer reads: character classes, lexemes and the tokens they denote.

use vstd::prelude::*;
use crate::common::{RawToken, StrDescriptor};

verus! {

pub open spec fn is_space(c: char) -> bool {
    c == ' ' || c == '\t' || c == '\r' || c == '\n'
}

pub open spec fn is_digit(c: char) -> bool {
    '0' <= c && c <= '9'
}

pub open spec fn is_ident_start(c: char) -> bool {
    ('a' <= c && c <= 'z') || ('A' <= c && c <= 'Z') || c == '_'
}

pub open spec fn is_ident_char(c: char) -> bool {
    is_ident_start(c) || is_digit(c)
}

/// The first position at or after `p` that does not hold white space.
pub open spec fn skip_spaces(input: Seq<char>, p: int) -> int
    decreases input.len() - p,
{
    if 0 <= p < input.len() && is_space(input[p]) {
        skip_spaces(input, p + 1)
    } else {
        p
    }
}

/// The end of the run of digits starting at `p`.
pub open spec fn digits_end(input: Seq<char>, p: int) -> int
    decreases input.len() - p,
{
    if 0 <= p < input.len() && is_digit(input[p]) {
        digits_end(input, p + 1)
    } else {
        p
    }
}

/// The end of the run of identifier characters starting at `p`.
pub open spec fn ident_end(input: Seq<char>, p: int) -> int
    decreases input.len() - p,
{
    if 0 <= p < input.len() && is_ident_char(input[p]) {
        ident_end(input, p + 1)
    } else {
        p
    }
}

pub open spec fn digit_value(c: char) -> int {
    (c as int) - ('0' as int)
}

/// The value of a decimal numeral.
pub open spec fn digits_value(s: Seq<char>) -> int
    decreases s.len(),
{
    if s.len() == 0 {
        0
    } else {
        digits_value(s.drop_last()) * 10 + digit_value(s.last())
    }
}

/// The keyword a word spells, if any.
pub open spec fn keyword(w: Seq<char>) -> Option<RawToken> {
    if w == "return"@ { Some(RawToken::Return) }
    else if w == "int"@ { Some(RawToken::Int) }
    else if w == "long"@ { Some(RawToken::Long) }
    else if w == "void"@ { Some(RawToken::Void) }
    else if w == "if"@ { Some(RawToken::If) }
    else if w == "else"@ { Some(RawToken::Else) }
    else if w == "do"@ { Some(RawToken::Do) }
    else if w == "while"@ { Some(RawToken::While) }
    else if w == "for"@ { Some(RawToken::For) }
    else if w == "break"@ { Some(RawToken::Break) }
    else if w == "continue"@ { Some(RawToken::Continue) }
    else if w == "static"@ { Some(RawToken::Static) }
    else if w == "extern"@ { Some(RawToken::Extern) }
    else { None }
}

/// The punctuation token spelled by `c` followed by `next`, with its length.
pub open spec fn punct(c: char, next: Option<char>) -> Option<(RawToken, int)> {
    if c == '(' { Some((RawToken::LParen, 1)) }
    else if c == ')' { Some((RawToken::RParen, 1)) }
    else if c == '{' { Some((RawToken::LBrace, 1)) }
    else if c == '}' { Some((RawToken::RBrace, 1)) }
    else if c == ';' { Some((RawToken::Semicolon, 1)) }
    else if c == ',' { Some((RawToken::Comma, 1)) }
    else if c == '~' { Some((RawToken::Tilde, 1)) }
    else if c == '?' { Some((RawToken::QuestionMark, 1)) }
    else if c == ':' { Some((RawToken::Colon, 1)) }
    else if c == '*' { Some((RawToken::Asterisk, 1)) }
    else if c == '/' { Some((RawToken::ForwardSlash, 1)) }
    else if c == '%' { Some((RawToken::Percent, 1)) }
    else if c == '-' { if next == Some('-') { Some((RawToken::DoubleHyphen, 2)) } else { Some((RawToken::Hyphen, 1)) } }
    else if c == '+' { if next == Some('+') { Some((RawToken::DoublePlus, 2)) } else { Some((RawToken::Plus, 1)) } }
    else if c == '&' { if next == Some('&') { Some((RawToken::DoubleAnd, 2)) } else { Some((RawToken::And, 1)) } }
    else if c == '|' { if next == Some('|') { Some((RawToken::DoubleOr, 2)) } else { Some((RawToken::Or, 1)) } }
    else if c == '=' { if next == Some('=') { Some((RawToken::DoubleEqual, 2)) } else { Some((RawToken::Equal, 1)) } }
    else if c == '!' { if next == Some('=') { Some((RawToken::NotEqual, 2)) } else { Some((RawToken::Bang, 1)) } }
    else if c == '<' { if next == Some('=') { Some((RawToken::LtEq, 2)) } else { Some((RawToken::LessThan, 1)) } }
    else if c == '>' { if next == Some('=') { Some((RawToken::GtEq, 2)) } else { Some((RawToken::GreaterThan, 1)) } }
    else { None }
}

pub open spec fn char_after(input: Seq<char>, p: int) -> Option<char> {
    if 0 <= p + 1 < input.len() { Some(input[p + 1]) } else { None }
}

/// The token of the lexeme `input[s..e]`, identifiers being named in `pool`.
pub open spec fn token_matches(pool: Seq<Seq<char>>, input: Seq<char>, s: int, e: int, tok: RawToken) -> bool {
    &&& 0 <= s < e <= input.len()
    &&& if punct(input[s], char_after(input, s)) is Some {
            let (t, n) = punct(input[s], char_after(input, s)).unwrap();
            tok == t && e == s + n
        } else if is_digit(input[s]) {
            let d = digits_end(input, s);
            let v = digits_value(input.subrange(s, d));
            &&& v <= i64::MAX
            &&& if d < input.len() && (input[d] == 'l' || input[d] == 'L') {
                    tok == RawToken::LongInteger(v as i64) && e == d + 1
                } else {
                    tok == RawToken::Integer(v as i64) && e == d
                }
        } else if is_ident_start(input[s]) {
            let w = input.subrange(s, ident_end(input, s));
            &&& e == ident_end(input, s)
            &&& match keyword(w) {
                    Some(k) => tok == k,
                    None => tok matches RawToken::Identifier(d) && d.0 < pool.len() && pool[d.0 as int] == w,
                }
        } else {
            false
        }
}

/// `toks` are the tokens read from position `p` on, ending at position `q`.
pub open spec fn scanned(pool: Seq<Seq<char>>, input: Seq<char>, p: int, toks: Seq<RawToken>, q: int) -> bool
    decreases toks.len(),
{
    if toks.len() == 0 {
        p == q
    } else {
        exists|e: int| #[trigger] token_matches(pool, input, skip_spaces(input, p), e, toks[0])
            && scanned(pool, input, e, toks.drop_first(), q)
    }
}

pub proof fn lemma_skip_spaces(input: Seq<char>, p: int)
    requires 0 <= p <= input.len(),
    ensures
        p <= skip_spaces(input, p) <= input.len(),
        skip_spaces(input, p) < input.len() ==> !is_space(input[skip_spaces(input, p)]),
    decreases input.len() - p,
{
    if p < input.len() && is_space(input[p]) {
        lemma_skip_spaces(input, p + 1);
    }
}

pub proof fn lemma_token_matches_grow(pool: Seq<Seq<char>>, pool2: Seq<Seq<char>>, input: Seq<char>, s: int, e: int, tok: RawToken)
    requires
        token_matches(pool, input, s, e, tok),
        pool.len() <= pool2.len(),
        forall|i: int| 0 <= i < pool.len() ==> pool2[i] == pool[i],
    ensures token_matches(pool2, input, s, e, tok),
{
}

pub proof fn lemma_scanned_grow(pool: Seq<Seq<char>>, pool2: Seq<Seq<char>>, input: Seq<char>, p: int, toks: Seq<RawToken>, q: int)
    requires
        scanned(pool, input, p, toks, q),
        pool.len() <= pool2.len(),
        forall|i: int| 0 <= i < pool.len() ==> pool2[i] == pool[i],
    ensures scanned(pool2, input, p, toks, q),
    decreases toks.len(),
{
    if toks.len() > 0 {
        let e = choose|e: int| #[trigger] token_matches(pool, input, skip_spaces(input, p), e, toks[0])
            && scanned(pool, input, e, toks.drop_first(), q);
        lemma_token_matches_grow(pool, pool2, input, skip_spaces(input, p), e, toks[0]);
        lemma_scanned_grow(pool, pool2, input, e, toks.drop_first(), q);
    }
}

pub proof fn lemma_scanned_push(pool: Seq<Seq<char>>, input: Seq<char>, p: int, toks: Seq<RawToken>, q: int, t: RawToken, e: int)
    requires
        scanned(pool, input, p, toks, q),
        token_matches(pool, input, skip_spaces(input, q), e, t),
    ensures scanned(pool, input, p, toks.push(t), e),
    decreases toks.len(),
{
    if toks.len() == 0 {
        assert(toks.push(t).drop_first() =~= Seq::<RawToken>::empty());
        assert(scanned(pool, input, e, toks.push(t).drop_first(), e));
        assert(p == q);
        assert(toks.push(t)[0] == t);
        assert(token_matches(pool, input, skip_spaces(input, p), e, toks.push(t)[0]));
    } else {
        let e0 = choose|e0: int| #[trigger] token_matches(pool, input, skip_spaces(input, p), e0, toks[0])
            && scanned(pool, input, e0, toks.drop_first(), q);
        lemma_scanned_push(pool, input, e0, toks.drop_first(), q, t, e);
        assert(toks.push(t).drop_first() =~= toks.drop_first().push(t));
        assert(toks.push(t)[0] == toks[0]);
        assert(token_matches(pool, input, skip_spaces(input, p), e0, toks.push(t)[0]));
        assert(scanned(pool, input, e0, toks.push(t).drop_first(), e));
    }
}

pub proof fn lemma_digits_end(input: Seq<char>, p: int)
    requires 0 <= p <= input.len(),
    ensures
        p <= digits_end(input, p) <= input.len(),
        forall|i: int| p <= i < digits_end(input, p) ==> is_digit(#[trigger] input[i]),
        digits_end(input, p) < input.len() ==> !is_digit(input[digits_end(input, p)]),
    decreases input.len() - p,
{
    if p < input.len() && is_digit(input[p]) {
        lemma_digits_end(input, p + 1);
    }
}

pub proof fn lemma_ident_end(input: Seq<char>, p: int)
    requires 0 <= p <= input.len(),
    ensures
        p <= ident_end(input, p) <= input.len(),
        ident_end(input, p) < input.len() ==> !is_ident_char(input[ident_end(input, p)]),
    decreases input.len() - p,
{
    if p < input.len() && is_ident_char(input[p]) {
        lemma_ident_end(input, p + 1);
    }
}


/// The text can be read as tokens from its start to its end.
pub open spec fn lexable(input: Seq<char>) -> bool {
    exists|pool: Seq<Seq<char>>, toks: Seq<RawToken>, q: int|
        #[trigger] scanned(pool, input, 0, toks, q) && skip_spaces(input, q) == input.len()
}

/// Where a token starts, its end is determined.
pub proof fn lemma_token_end_unique(pool1: Seq<Seq<char>>, pool2: Seq<Seq<char>>, input: Seq<char>, s: int, e1: int, e2: int, t1: RawToken, t2: RawToken)
    requires token_matches(pool1, input, s, e1, t1), token_matches(pool2, input, s, e2, t2),
    ensures e1 == e2,
{
}

/// Two reads of the same text from the same place pass through the same
/// places: after the tokens of the shorter one, the longer one goes on from
/// where the shorter one ended.
pub proof fn lemma_scanned_prefix(pool1: Seq<Seq<char>>, pool2: Seq<Seq<char>>, input: Seq<char>, p: int,
    toks1: Seq<RawToken>, q1: int, toks2: Seq<RawToken>, q2: int)
    requires
        scanned(pool1, input, p, toks1, q1), scanned(pool2, input, p, toks2, q2),
        toks1.len() <= toks2.len(),
    ensures scanned(pool2, input, q1, toks2.subrange(toks1.len() as int, toks2.len() as int), q2),
    decreases toks1.len(),
{
    if toks1.len() == 0 {
        assert(toks2.subrange(0, toks2.len() as int) =~= toks2);
    } else {
        let s = skip_spaces(input, p);
        let e1 = choose|e: int| #[trigger] token_matches(pool1, input, s, e, toks1[0]) && scanned(pool1, input, e, toks1.drop_first(), q1);
        let e2 = choose|e: int| #[trigger] token_matches(pool2, input, s, e, toks2[0]) && scanned(pool2, input, e, toks2.drop_first(), q2);
        lemma_token_end_unique(pool1, pool2, input, s, e1, e2, toks1[0], toks2[0]);
        lemma_scanned_prefix(pool1, pool2, input, e1, toks1.drop_first(), q1, toks2.drop_first(), q2);
        assert(toks2.drop_first().subrange(toks1.drop_first().len() as int, toks2.drop_first().len() as int)
            =~= toks2.subrange(toks1.len() as int, toks2.len() as int));
    }
}

/// A read from the start that reaches `p`, where no token starts although
/// the text goes on, leaves the text unreadable.
pub proof fn lemma_stuck_unlexable(pool: Seq<Seq<char>>, input: Seq<char>, toks: Seq<RawToken>, p: int)
    requires
        scanned(pool, input, 0, toks, p),
        skip_spaces(input, p) < input.len(),
        forall|pl: Seq<Seq<char>>, e: int, t: RawToken| !#[trigger] token_matches(pl, input, skip_spaces(input, p), e, t),
    ensures !lexable(input),
{
    if lexable(input) {
        let (pl, toks2, q2) = choose|pl: Seq<Seq<char>>, toks2: Seq<RawToken>, q2: int|
            #[trigger] scanned(pl, input, 0, toks2, q2) && skip_spaces(input, q2) == input.len();
        if toks.len() <= toks2.len() {
            lemma_scanned_prefix(pool, pl, input, 0, toks, p, toks2, q2);
            let rest = toks2.subrange(toks.len() as int, toks2.len() as int);
            if rest.len() > 0 {
                let e = choose|e: int| #[trigger] token_matches(pl, input, skip_spaces(input, p), e, rest[0]) && scanned(pl, input, e, rest.drop_first(), q2);
                assert(token_matches(pl, input, skip_spaces(input, p), e, rest[0]));
            } else {
                assert(p == q2);
            }
        } else {
            lemma_scanned_prefix(pl, pool, input, 0, toks2, q2, toks, p);
            let rest = toks.subrange(toks2.len() as int, toks.len() as int);
            assert(rest.len() > 0);
            let e = choose|e: int| #[trigger] token_matches(pool, input, skip_spaces(input, q2), e, rest[0]) && scanned(pool, input, e, rest.drop_first(), p);
            assert(token_matches(pool, input, skip_spaces(input, q2), e, rest[0]));
        }
    }
}

/// A numeral is worth at least any of its prefixes.
pub proof fn lemma_digits_value_mono(input: Seq<char>, s: int, i: int, d: int)
    requires 0 <= s <= i <= d <= input.len(), forall|k: int| s <= k < d ==> is_digit(#[trigger] input[k]),
    ensures digits_value(input.subrange(s, i)) <= digits_value(input.subrange(s, d)),
    decreases d - i,
{
    if i < d {
        lemma_digits_value_mono(input, s, i, d - 1);
        let w = input.subrange(s, d);
        assert(w.drop_last() =~= input.subrange(s, d - 1));
        assert(is_digit(input[d - 1]));
        lemma_digits_value_nonneg(input.subrange(s, d - 1));
    }
}

pub proof fn lemma_digits_value_nonneg(w: Seq<char>)
    requires forall|k: int| 0 <= k < w.len() ==> is_digit(#[trigger] w[k]),
    ensures digits_value(w) >= 0,
    decreases w.len(),
{
    if w.len() > 0 {
        lemma_digits_value_nonneg(w.drop_last());
        assert(is_digit(w[w.len() - 1]));
    }
}

} // verus!
