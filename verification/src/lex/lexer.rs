use vstd::prelude::*;
use crate::common::{Error, RawToken, Result, Span, Token, StringPool};
use super::spec::{is_space, is_digit, is_ident_start, is_ident_char, skip_spaces, digits_end, ident_end, digit_value, digits_value, keyword, punct, char_after, token_matches, scanned, lemma_skip_spaces, lemma_token_matches_grow, lemma_scanned_grow, lemma_scanned_push, lemma_digits_end, lemma_ident_end, lemma_digits_value_mono, lemma_stuck_unlexable, lexable};

verus! {

/// The characters that `advance_while` consumes.
#[derive(Debug, Clone, Copy, PartialEq, Eq, Structural)]
pub enum CharClass {
    Digit,
    IdentChar,
}

/// The lexer reads ASCII source text; identifiers are interned in its string pool.
#[derive(Debug)]
pub struct Lexer {
    input: Vec<char>,
    position: usize,
    has_error: bool,
    cur_line: usize,
    cur_column: usize,
    strtb: StringPool,
}

fn is_space_char(c: char) -> (r: bool)
    ensures r == is_space(c),
{
    c == ' ' || c == '\t' || c == '\r' || c == '\n'
}

fn is_digit_char(c: char) -> (r: bool)
    ensures r == is_digit(c),
{
    '0' <= c && c <= '9'
}

fn is_ident_start_char(c: char) -> (r: bool)
    ensures r == is_ident_start(c),
{
    ('a' <= c && c <= 'z') || ('A' <= c && c <= 'Z') || c == '_'
}

fn is_ident_char_char(c: char) -> (r: bool)
    ensures r == is_ident_char(c),
{
    is_ident_start_char(c) || is_digit_char(c)
}

/// Whether the characters spell the literal.
fn word_is(w: &Vec<char>, lit: &str) -> (r: bool)
    ensures r == (w@ == lit@),
{
    let l = crate::text::chars_of(lit);
    if w.len() != l.len() {
        assert(w@.len() != lit@.len());
        return false;
    }
    let mut i: usize = 0;
    while i < w.len()
        invariant
            i <= w.len(),
            w.len() == l.len(),
            l@ == lit@,
            forall|j: int| 0 <= j < i ==> w@[j] == l@[j],
        decreases w.len() - i,
    {
        if w[i] != l[i] {
            assert(l@ == lit@);
            assert(w@[i as int] != lit@[i as int]);
            return false;
        }
        i = i + 1;
    }
    assert(w@ =~= l@);
    true
}

/// The keyword a word spells, if any.
fn keyword_of(w: &Vec<char>) -> (r: Option<RawToken>)
    ensures r == keyword(w@),
{
    if word_is(w, "return") { Some(RawToken::Return) }
    else if word_is(w, "int") { Some(RawToken::Int) }
    else if word_is(w, "long") { Some(RawToken::Long) }
    else if word_is(w, "void") { Some(RawToken::Void) }
    else if word_is(w, "if") { Some(RawToken::If) }
    else if word_is(w, "else") { Some(RawToken::Else) }
    else if word_is(w, "do") { Some(RawToken::Do) }
    else if word_is(w, "while") { Some(RawToken::While) }
    else if word_is(w, "for") { Some(RawToken::For) }
    else if word_is(w, "break") { Some(RawToken::Break) }
    else if word_is(w, "continue") { Some(RawToken::Continue) }
    else if word_is(w, "static") { Some(RawToken::Static) }
    else if word_is(w, "extern") { Some(RawToken::Extern) }
    else { None }
}

/// The punctuation token spelled by `c` and the character after it, with its length.
fn punct_of(c: char, next: Option<char>) -> (r: Option<(RawToken, usize)>)
    ensures
        match punct(c, next) {
            Some((t, n)) => r == Some((t, n as usize)),
            None => r is None,
        },
{
    if c == '(' { Some((RawToken::LParen, 1)) }
    else if c == ')' { Some((RawToken::RParen, 1)) }
    else if c == '{' { Some((RawToken::LBrace, 1)) }
    else if c == '}' { Some((RawToken::RBrace, 1)) }
    else if c == ';' { Some((RawToken::Semicolon, 1)) }
    else if c == ',' { Some((RawToken::Comma, 1)) }
    else if c == '~' { Some((RawToken::Tilde, 1)) }
    else if c == '?' { Some((RawToken::QuestionMark, 1)) }
    else if c == ':' { Some((RawToken::Colon, 1)) }
    else if c == '*' { Some((RawToken::Asterisk, 1)) }
    else if c == '/' { Some((RawToken::ForwardSlash, 1)) }
    else if c == '%' { Some((RawToken::Percent, 1)) }
    else if c == '-' { if next == Some('-') { Some((RawToken::DoubleHyphen, 2)) } else { Some((RawToken::Hyphen, 1)) } }
    else if c == '+' { if next == Some('+') { Some((RawToken::DoublePlus, 2)) } else { Some((RawToken::Plus, 1)) } }
    else if c == '&' { if next == Some('&') { Some((RawToken::DoubleAnd, 2)) } else { Some((RawToken::And, 1)) } }
    else if c == '|' { if next == Some('|') { Some((RawToken::DoubleOr, 2)) } else { Some((RawToken::Or, 1)) } }
    else if c == '=' { if next == Some('=') { Some((RawToken::DoubleEqual, 2)) } else { Some((RawToken::Equal, 1)) } }
    else if c == '!' { if next == Some('=') { Some((RawToken::NotEqual, 2)) } else { Some((RawToken::Bang, 1)) } }
    else if c == '<' { if next == Some('=') { Some((RawToken::LtEq, 2)) } else { Some((RawToken::LessThan, 1)) } }
    else if c == '>' { if next == Some('=') { Some((RawToken::GtEq, 2)) } else { Some((RawToken::GreaterThan, 1)) } }
    else { None }
}

impl Lexer {
    /// The source text.
    pub closed spec fn source(self) -> Seq<char> {
        self.input@
    }

    /// The position of the next character to read.
    pub closed spec fn pos(self) -> int {
        self.position as int
    }

    /// The identifiers interned so far.
    pub closed spec fn pool(self) -> Seq<Seq<char>> {
        self.strtb@
    }

    pub closed spec fn wf(self) -> bool {
        self.position <= self.input@.len() && self.strtb.wf()
    }

    /// Whether an error was found.
    pub closed spec fn flagged(self) -> bool {
        self.has_error
    }

    /// The lexer state after `self`, on the same text, with more identifiers interned.
    pub open spec fn follows(self, prev: Lexer) -> bool {
        &&& self.wf()
        &&& self.source() == prev.source()
        &&& self.pos() >= prev.pos()
        &&& prev.pool().len() <= self.pool().len()
        &&& forall|i: int| 0 <= i < prev.pool().len() ==> self.pool()[i] == prev.pool()[i]
    }

    pub fn new(input: String) -> (r: Self)
        ensures r.wf(), r.source() == input@, r.pos() == 0, r.pool() == Seq::<Seq<char>>::empty(), !r.flagged(),
    {
        let input: Vec<char> = crate::text::chars_of(input.as_str());
        Self {
            input,
            position: 0,
            has_error: false,
            cur_line: 1,
            cur_column: 1,
            strtb: StringPool::new(),
        }
    }

    /// Tokenizes the whole text. On success, the tokens are those read from the
    /// start of the text to its end, and the pool holds their identifiers.
    pub fn lex(self) -> (r: Result<(Vec<Token>, StringPool)>)
        requires self.wf(), self.pos() == 0, !self.flagged(),
        ensures
            r is Err <==> !lexable(self.source()),
            r matches Err(e) ==> (e matches Error::Errors(es) && es@.len() >= 1
                && forall|k: int| 0 <= k < es@.len() ==> #[trigger] es@[k] is Lex),
            r matches Ok((tokens, pool)) ==> {
                let toks = Seq::new(tokens@.len(), |i: int| tokens@[i].inner);
                &&& pool.wf()
                &&& exists|q: int| scanned(pool@, self.source(), 0, toks, q)
                        && skip_spaces(self.source(), q) == self.source().len()
            },
    {
        let mut lexer = self;
        let mut tokens: Vec<Token> = Vec::new();
        let mut errors: Vec<Error> = Vec::new();
        let mut failed = false;
        let ghost mut q: int = 0;
        loop
            invariant_except_break
                !failed ==> q == lexer.pos(),
                !failed ==> scanned(lexer.pool(), lexer.source(), 0,
                    Seq::new(tokens@.len(), |i: int| tokens@[i].inner), q),
            invariant
                lexer.follows(self),
                failed ==> !lexable(self.source()),
                lexer.flagged() ==> failed,
                failed ==> errors@.len() >= 1,
                forall|k: int| 0 <= k < errors@.len() ==> #[trigger] errors@[k] is Lex,
            ensures
                failed ==> errors@.len() >= 1,
                forall|k: int| 0 <= k < errors@.len() ==> #[trigger] errors@[k] is Lex,
                lexer.follows(self),
                failed ==> !lexable(self.source()),
                lexer.flagged() ==> failed,
                !failed ==> scanned(lexer.pool(), lexer.source(), 0,
                    Seq::new(tokens@.len(), |i: int| tokens@[i].inner), q),
                !failed ==> skip_spaces(lexer.source(), q) == lexer.source().len(),
            decreases lexer.source().len() - lexer.pos(),
        {
            let ghost before = lexer;
            let ghost toks = Seq::new(tokens@.len(), |i: int| tokens@[i].inner);
            match lexer.next_token() {
                Ok(Some(token)) => {
                    proof {
                        if !failed {
                            lemma_scanned_grow(before.pool(), lexer.pool(), lexer.source(), 0, toks, q);
                            lemma_scanned_push(lexer.pool(), lexer.source(), 0, toks, q, token.inner, lexer.pos());
                            q = lexer.pos();
                        }
                    }
                    tokens.push(token);
                    proof {
                        assert(Seq::new(tokens@.len(), |i: int| tokens@[i].inner) =~= toks.push(tokens@[tokens@.len() - 1].inner));
                    }
                },
                Ok(None) => {
                    proof {
                        if !failed {
                            lemma_scanned_grow(before.pool(), lexer.pool(), lexer.source(), 0, toks, q);
                        }
                    }
                    break;
                },
                Err(e) => {
                    proof {
                        if !failed {
                            lemma_scanned_grow(before.pool(), lexer.pool(), lexer.source(), 0, toks, q);
                            lemma_stuck_unlexable(lexer.pool(), lexer.source(), toks, q);
                        }
                    }
                    errors.push(e);
                    failed = true;
                },
            }
        }
        if failed || lexer.has_error {
            Err(Error::Errors(errors))
        } else {
            Ok((tokens, lexer.strtb))
        }
    }

    fn is_at_end(&self) -> (r: bool)
        requires self.wf(),
        ensures r == (self.pos() >= self.source().len()),
    {
        self.position >= self.input.len()
    }

    fn bump_column(&mut self)
        ensures final(self).input == old(self).input, final(self).position == old(self).position,
            final(self).strtb == old(self).strtb, final(self).cur_line == old(self).cur_line,
            final(self).has_error == old(self).has_error,
            final(self).cur_column == if old(self).cur_column < usize::MAX { old(self).cur_column + 1 } else { old(self).cur_column as int },
    {
        if self.cur_column < usize::MAX {
            self.cur_column = self.cur_column + 1;
        }
    }

    fn new_line(&mut self)
        ensures final(self).input == old(self).input, final(self).position == old(self).position,
            final(self).strtb == old(self).strtb, final(self).has_error == old(self).has_error,
            final(self).cur_line == if old(self).cur_line < usize::MAX { old(self).cur_line + 1 } else { old(self).cur_line as int },
            final(self).cur_column == 1,
    {
        if self.cur_line < usize::MAX {
            self.cur_line = self.cur_line + 1;
        }
        self.cur_column = 1;
    }

    fn advance(&mut self) -> (r: Option<char>)
        requires old(self).wf(),
        ensures
            final(self).wf(),
            final(self).input == old(self).input,
            final(self).strtb == old(self).strtb,
            final(self).has_error == old(self).has_error,
            old(self).pos() < old(self).source().len() ==>
                r == Some(old(self).source()[old(self).pos()]) && final(self).pos() == old(self).pos() + 1,
            old(self).pos() >= old(self).source().len() ==> r is None && final(self).pos() == old(self).pos(),
    {
        if self.position >= self.input.len() {
            None
        } else {
            let current_char = self.input[self.position];
            self.position = self.position + 1;
            if current_char == '\n' {
                self.new_line();
            } else {
                self.bump_column();
            }
            Some(current_char)
        }
    }

    fn peek(&self) -> (r: Option<char>)
        requires self.wf(),
        ensures
            self.pos() < self.source().len() ==> r == Some(self.source()[self.pos()]),
            self.pos() >= self.source().len() ==> r is None,
    {
        if self.is_at_end() {
            None
        } else {
            Some(self.input[self.position])
        }
    }

    fn peek_next(&self) -> (r: Option<char>)
        requires self.wf(),
        ensures r == char_after(self.source(), self.pos()),
    {
        if self.position >= self.input.len() || self.input.len() - self.position < 2 {
            None
        } else {
            Some(self.input[self.position + 1])
        }
    }

    /// Advances the lexer while the next character is of the class.
    /// Returns: .0 Span of the characters consumed, .1: start position of the span.
    fn advance_while(&mut self, class: CharClass) -> (r: (Span, usize))
        requires old(self).wf(),
        ensures
            final(self).wf(),
            final(self).input == old(self).input,
            final(self).strtb == old(self).strtb,
            final(self).has_error == old(self).has_error,
            r.1 == old(self).position,
            class is Digit ==> final(self).pos() == digits_end(old(self).source(), old(self).pos()),
            class is IdentChar ==> final(self).pos() == ident_end(old(self).source(), old(self).pos()),
    {
        let start_position = self.position;
        let start_line = self.cur_line;
        let start_column = self.cur_column;
        loop
            invariant
                self.wf(),
                self.input == old(self).input,
                self.strtb == old(self).strtb,
                self.has_error == old(self).has_error,
                start_position == old(self).position,
                start_position <= self.position,
                class is Digit ==> digits_end(self.source(), self.pos()) == digits_end(old(self).source(), old(self).pos()),
                class is IdentChar ==> ident_end(self.source(), self.pos()) == ident_end(old(self).source(), old(self).pos()),
            ensures
                self.wf(),
                self.input == old(self).input,
                self.strtb == old(self).strtb,
                self.has_error == old(self).has_error,
                start_position == old(self).position,
                start_position <= self.position,
                class is Digit ==> self.pos() == digits_end(old(self).source(), old(self).pos()),
                class is IdentChar ==> self.pos() == ident_end(old(self).source(), old(self).pos()),
            decreases self.source().len() - self.pos(),
        {
            match self.peek() {
                Some(c) => {
                    let take = match class {
                        CharClass::Digit => is_digit_char(c),
                        CharClass::IdentChar => is_ident_char_char(c),
                    };
                    if take {
                        self.advance();
                    } else {
                        assert(class is Digit ==> digits_end(self.source(), self.pos()) == self.pos());
                        assert(class is IdentChar ==> ident_end(self.source(), self.pos()) == self.pos());
                        break;
                    }
                },
                None => {
                    assert(class is Digit ==> digits_end(self.source(), self.pos()) == self.pos());
                    assert(class is IdentChar ==> ident_end(self.source(), self.pos()) == self.pos());
                    break;
                },
            }
        }
        (Span::new(start_line, start_column).with_length(self.position - start_position), start_position)
    }

    /*
    Following methods are for lexing specific tokens.
    They will be called by `next_token` method, which is the main entry point for
    lexing tokens from the input.
    The caller must make sure the first character is valid for the token type.
    */

    fn integer(&mut self) -> (r: Result<Token>)
        requires
            old(self).wf(),
            old(self).pos() < old(self).source().len(),
            is_digit(old(self).source()[old(self).pos()]),
        ensures
            final(self).follows(*old(self)),
            final(self).pos() > old(self).pos(),
            final(self).strtb == old(self).strtb,
            final(self).has_error == old(self).has_error,
            r matches Ok(t) ==> token_matches(final(self).pool(), final(self).source(), old(self).pos(), final(self).pos(), t.inner),
            r is Err ==> digits_value(old(self).source().subrange(old(self).pos(), digits_end(old(self).source(), old(self).pos()))) > i64::MAX,
            r matches Err(e) ==> e is Lex,
    {
        let (span, start_position) = self.advance_while(CharClass::Digit);
        proof {
            lemma_digits_end(self.source(), start_position as int);
            lemma_digits_end(self.source(), start_position + 1);
        }
        let ghost input = self.source();
        let mut value: i64 = 0;
        let mut i: usize = start_position;
        while i < self.position
            invariant
                start_position <= i <= self.position,
                start_position == old(self).position,
                self.wf(),
                self.input@ == input,
                input == old(self).source(),
                self.strtb == old(self).strtb,
                self.has_error == old(self).has_error,
                old(self).position < self.position,
                self.pos() == digits_end(input, start_position as int),
                forall|k: int| start_position <= k < digits_end(input, start_position as int) ==> is_digit(#[trigger] input[k]),
                value as int == digits_value(input.subrange(start_position as int, i as int)),
                value >= 0,
            decreases self.position - i,
        {
            let c = self.input[i];
            let d: i64 = (c as u32 - '0' as u32) as i64;
            assert(input.subrange(start_position as int, i + 1).drop_last() =~= input.subrange(start_position as int, i as int));
            if value > (i64::MAX - d) / 10 {
                assert(self.follows(*old(self)));
                proof {
                    let w = input.subrange(start_position as int, i + 1);
                    assert(w.last() == c);
                    assert(d as int == digit_value(c));
                    assert(w.drop_last() =~= input.subrange(start_position as int, i as int));
                    assert(digits_value(w) == digits_value(input.subrange(start_position as int, i as int)) * 10 + digit_value(c));
                    assert(value * 10 + d > i64::MAX) by (nonlinear_arith)
                        requires value > (i64::MAX - d) / 10, 0 <= d <= 9;
                    lemma_digits_value_mono(input, start_position as int, i + 1, digits_end(input, start_position as int));
                    assert(digits_value(input.subrange(start_position as int, digits_end(input, start_position as int))) > i64::MAX);
                }
                return Err(Error::lex(crate::text::string_of("Integer literal too large"), span));
            }
            value = value * 10 + d;
            i = i + 1;
        }
        let raw = match self.peek() {
            Some(c) => if c == 'l' || c == 'L' {
                self.advance();
                RawToken::LongInteger(value)
            } else {
                RawToken::Integer(value)
            },
            None => RawToken::Integer(value),
        };
        proof {
            assert(punct(input[start_position as int], char_after(input, start_position as int)) is None);
        }
        Ok(Token::new(raw, span))
    }

    fn identifier(&mut self) -> (r: Result<Token>)
        requires
            old(self).wf(),
            old(self).pos() < old(self).source().len(),
            is_ident_start(old(self).source()[old(self).pos()]),
        ensures
            final(self).follows(*old(self)),
            final(self).pos() > old(self).pos(),
            final(self).has_error == old(self).has_error,
            r matches Ok(t) ==> token_matches(final(self).pool(), final(self).source(), old(self).pos(), final(self).pos(), t.inner),
            r is Ok,
    {
        let (span, start_position) = self.advance_while(CharClass::IdentChar);
        proof {
            lemma_ident_end(self.source(), start_position as int);
            lemma_ident_end(self.source(), start_position + 1);
        }
        let ghost input = self.source();
        let mut word: Vec<char> = Vec::new();
        let mut i: usize = start_position;
        while i < self.position
            invariant
                start_position <= i <= self.position,
                self.wf(),
                self.input@ == input,
                input == old(self).source(),
                self.strtb == old(self).strtb,
                self.has_error == old(self).has_error,
                old(self).position < self.position,
                word@ == input.subrange(start_position as int, i as int),
            decreases self.position - i,
        {
            word.push(self.input[i]);
            i = i + 1;
            assert(word@ =~= input.subrange(start_position as int, i as int));
        }
        proof {
            assert(punct(input[start_position as int], char_after(input, start_position as int)) is None);
            assert(!is_digit(input[start_position as int]));
        }
        match keyword_of(&word) {
            Some(k) => Ok(Token::new(k, span)),
            None => {
                let ghost w = word@;
                let name = self.strtb.intern(crate::text::string_from_chars(&word));
                Ok(Token::new(RawToken::Identifier(name), span))
            },
        }
    }

    fn next_token(&mut self) -> (r: Result<Option<Token>>)
        requires old(self).wf(),
        ensures
            final(self).follows(*old(self)),
            r matches Ok(None) ==> final(self).pos() == final(self).source().len()
                && skip_spaces(old(self).source(), old(self).pos()) == final(self).source().len(),
            r matches Ok(Some(t)) ==> token_matches(final(self).pool(), final(self).source(),
                skip_spaces(old(self).source(), old(self).pos()), final(self).pos(), t.inner),
            !(r matches Ok(None)) ==> final(self).pos() > old(self).pos(),
            !(r is Err) ==> final(self).flagged() == old(self).flagged(),
            r matches Err(e) ==> e is Lex,
            r is Err ==> skip_spaces(old(self).source(), old(self).pos()) < old(self).source().len()
                && forall|pl: Seq<Seq<char>>, e: int, t: RawToken|
                    !#[trigger] token_matches(pl, old(self).source(), skip_spaces(old(self).source(), old(self).pos()), e, t),
    {
        // skip whitespace
        loop
            invariant
                self.wf(),
                self.input == old(self).input,
                self.strtb == old(self).strtb,
                old(self).pos() <= self.pos(),
                skip_spaces(self.source(), self.pos()) == skip_spaces(old(self).source(), old(self).pos()),
                self.has_error == old(self).has_error,
            ensures
                self.has_error == old(self).has_error,
                self.wf(),
                self.input == old(self).input,
                self.strtb == old(self).strtb,
                old(self).pos() <= self.pos(),
                skip_spaces(self.source(), self.pos()) == skip_spaces(old(self).source(), old(self).pos()),
                self.pos() < self.source().len() ==> !is_space(self.source()[self.pos()]),
            decreases self.source().len() - self.pos(),
        {
            if self.position >= self.input.len() {
                break;
            }
            let c = self.input[self.position];
            if c == '\n' {
                self.position = self.position + 1;
                self.new_line();
            } else if is_space_char(c) {
                self.position = self.position + 1;
                self.bump_column();
            } else {
                break;
            }
        }
        proof { lemma_skip_spaces(self.source(), old(self).pos()); }

        if self.is_at_end() {
            return Ok(None);
        }

        let cur_char = self.input[self.position];
        let start_line = self.cur_line;
        let start_column = self.cur_column;

        match punct_of(cur_char, self.peek_next()) {
            Some((raw, n)) => {
                self.advance();
                if n == 2 {
                    self.advance();
                }
                Ok(Some(Token::new(raw, Span::new(start_line, start_column))))
            },
            None => {
                if is_digit_char(cur_char) {
                    let ghost at = self.pos();
                    match self.integer() {
                        Ok(t) => Ok(Some(t)),
                        Err(e) => {
                            self.has_error = true;
                            proof {
                                let src = old(self).source();
                                assert(at == skip_spaces(src, old(self).pos()));
                                assert forall|pl: Seq<Seq<char>>, e2: int, t2: RawToken|
                                    !#[trigger] token_matches(pl, src, at, e2, t2) by {
                                    assert(punct(src[at], char_after(src, at)) is None);
                                    assert(is_digit(src[at]));
                                }
                            }
                            Err(e)
                        },
                    }
                } else if is_ident_start_char(cur_char) {
                    match self.identifier() {
                        Ok(t) => Ok(Some(t)),
                        Err(e) => Err(e),
                    }
                } else {
                    proof {
                        let src = old(self).source();
                        let at = self.pos();
                        assert(at == skip_spaces(src, old(self).pos()));
                        assert forall|pl: Seq<Seq<char>>, e2: int, t2: RawToken|
                            !#[trigger] token_matches(pl, src, at, e2, t2) by {
                            assert(punct(src[at], char_after(src, at)) is None);
                        }
                    }
                    self.has_error = true;
                    self.advance();
                    let mut msg: Vec<char> = Vec::new();
                    crate::text::push_str(&mut msg, "Unexpected character: '");
                    msg.push(cur_char);
                    msg.push('\'');
                    Err(Error::lex(crate::text::string_from_chars(&msg), Span::new(start_line, start_column)))
                }
            },
        }
    }
}

} // verus!
