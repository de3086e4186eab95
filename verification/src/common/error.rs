//! Top-level error module.

use vstd::prelude::*;
use super::Span;

verus! {

pub type Result<T> = core::result::Result<T, Error>;

#[derive(Debug)]
pub enum Error {
    Lex(String),
    Parse(String),
    Semantic(String),
    // General errors
    Errors(Vec<Error>),
    Unimplemented,
    Other(String),
}

/// A message followed by the location it refers to: `msg (line L, column C)`.
pub open spec fn located(msg: Seq<char>, span: Span) -> Seq<char> {
    msg + " (line "@ + crate::text::dec_nat(span.line as nat) + ", column "@
        + crate::text::dec_nat(span.column as nat) + ")"@
}

fn locate(msg: String, span: &Span) -> (r: String)
    ensures r@ == located(msg@, *span),
{
    let mut out: Vec<char> = Vec::new();
    crate::text::push_string(&mut out, &msg);
    crate::text::push_str(&mut out, " (line ");
    crate::text::push_nat(&mut out, span.line as u64);
    crate::text::push_str(&mut out, ", column ");
    crate::text::push_nat(&mut out, span.column as u64);
    crate::text::push_str(&mut out, ")");
    crate::text::string_from_chars(&out)
}

/// The message of an error that does not gather others.
pub open spec fn single_text(e: Error) -> Seq<char> {
    match e {
        Error::Lex(m) => "Lexer error: "@ + m@,
        Error::Parse(m) => "Parser error: "@ + m@,
        Error::Semantic(m) => "Semantic error: "@ + m@,
        Error::Errors(_) => Seq::empty(),
        Error::Unimplemented => "Feature not implemented"@,
        Error::Other(m) => m@,
    }
}

/// The messages of gathered errors, one per line.
pub open spec fn lines_text(es: Seq<Error>) -> Seq<char>
    decreases es.len(),
{
    if es.len() == 0 { Seq::empty() } else { lines_text(es.drop_last()) + single_text(es.last()) + "\n"@ }
}

/// The message of an error as the compiler reports it.
pub open spec fn error_text(e: Error) -> Seq<char> {
    match e {
        Error::Errors(es) => lines_text(es@),
        _ => single_text(e),
    }
}

impl Error {
    /// A semantic error about the code at `span`.
    pub fn semantic(msg: String, span: Span) -> (r: Error)
        ensures r matches Error::Semantic(m) && m@ == located(msg@, span),
    {
        Error::Semantic(locate(msg, &span))
    }

    /// A syntax error about the code at `span`.
    pub fn parse(msg: String, span: Span) -> (r: Error)
        ensures r matches Error::Parse(m) && m@ == located(msg@, span),
    {
        Error::Parse(locate(msg, &span))
    }

    /// A lexical error about the code at `span`.
    pub fn lex(msg: String, span: Span) -> (r: Error)
        ensures r matches Error::Lex(m) && m@ == located(msg@, span),
    {
        Error::Lex(locate(msg, &span))
    }

    /// Appends the message of an error that does not gather others.
    fn push_single(&self, out: &mut Vec<char>)
        ensures final(out)@ == old(out)@ + single_text(*self),
    {
        match self {
            Error::Lex(err) => {
                crate::text::push_str(out, "Lexer error: ");
                crate::text::push_string(out, err);
            },
            Error::Parse(err) => {
                crate::text::push_str(out, "Parser error: ");
                crate::text::push_string(out, err);
            },
            Error::Semantic(err) => {
                crate::text::push_str(out, "Semantic error: ");
                crate::text::push_string(out, err);
            },
            Error::Errors(_) => {
                proof { assert(old(out)@ + single_text(*self) =~= old(out)@); }
            },
            Error::Unimplemented => crate::text::push_str(out, "Feature not implemented"),
            Error::Other(msg) => crate::text::push_string(out, msg),
        }
    }

    /// The error's message, as the compiler reports it; a gathered error lists
    /// the messages of its errors, one per line.
    pub fn to_text(&self) -> (r: String)
        ensures r@ == error_text(*self),
    {
        let mut out: Vec<char> = Vec::new();
        match self {
            Error::Errors(errors) => {
                let mut i: usize = 0;
                while i < errors.len()
                    invariant i <= errors.len(), out@ == lines_text(errors@.subrange(0, i as int)),
                    decreases errors.len() - i,
                {
                    errors[i].push_single(&mut out);
                    out.push('\n');
                    proof {
                        let p = errors@.subrange(0, i as int + 1);
                        assert(p.drop_last() =~= errors@.subrange(0, i as int));
                        assert(p.last() == errors@[i as int]);
                        reveal_strlit("\n");
                        assert(out@ =~= lines_text(p));
                    }
                    i = i + 1;
                }
                proof { assert(errors@.subrange(0, i as int) =~= errors@); }
            },
            _ => {
                self.push_single(&mut out);
                proof { assert(out@ =~= single_text(*self)); }
            },
        }
        crate::text::string_from_chars(&out)
    }
}

} // verus!
