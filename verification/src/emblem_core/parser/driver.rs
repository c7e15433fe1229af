//! Parsing a whole text: lexing it and parsing its tokens.
use vstd::prelude::*;
use crate::ast::ParPart;
use crate::ast::parsed::{Attr, Content, Sugar};
use crate::emblem_core::parser::grammar::attr_tok;
use crate::emblem_core::parser::located::{file_located, lemma_document_spans};
use crate::emblem_core::parser::location::Location;
use crate::emblem_core::parser::token::{tv, TokV};
use crate::ast::File;
use crate::emblem_core::parser::cursor::fits;
use crate::emblem_core::parser::error::{Error, ParseError};
use crate::emblem_core::parser::grammar::{file_ok, reads_as};
use crate::emblem_core::parser::lexer::{indent_balance, lexes, run_from, texts_ok, tokenize, Dialect, LexicalError, Lexer, SpannedTok};
use crate::emblem_core::parser::point::Point;
use crate::emblem_core::parser::parse::parse_tokens;
use crate::text::string_of;

verus! {

/// `f` is read from `text`: it is a document that the parser reads back,
/// and some tokens read as it that close all the indentation they open,
/// start in the order of the text, and each hold what they were read from
/// in it.
pub open spec fn read_from(text: Seq<char>, f: File) -> bool {
    &&& file_ok(f)
    &&& exists|ts: Seq<SpannedTok>|
        {
            &&& indent_balance(ts) == 0
            &&& texts_ok(ts, text)
            &&& forall|i: int, j: int| 0 <= i < j < ts.len() ==> #[trigger] ts[i].0.index <= #[trigger] ts[j].0.index
            &&& #[trigger] reads_as(ts, f)
        }
}

/// What parsing makes of the tokens `ts` that the lexer returned before it
/// stopped with `err`: a document exactly where it stopped with no error
/// and the tokens read as a document that the parser reads back, which is
/// then what comes back, each of its parts carrying the span of exactly
/// the tokens it was read from; a lexical error, where one is given, is the
/// one that stopped the lexer.
pub open spec fn parse_outcome(ts: Seq<SpannedTok>, err: Option<LexicalError>, r: Result<File, Error>) -> bool {
    &&& r is Ok <==> err is None && exists|f: File| file_ok(f) && #[trigger] reads_as(ts, f)
    &&& r matches Ok(f) ==> file_ok(f) && reads_as(ts, f)
    &&& r matches Ok(f) ==> file_located(f, ts)
    &&& r matches Err(Error::Parse { cause: ParseError::User { error }, .. }) ==> err == Some(error)
    &&& !(r is Err && r->Err_0 is TooLong)
}

/// The error for tokens that stop fitting the grammar at token `at`: that
/// token, or, at the end of the tokens, the lexical error that ended them
/// or the end itself.
pub fn failure(toks: &Vec<SpannedTok>, at: usize, lexical: Option<LexicalError>, start: &Point) -> (e: ParseError)
    requires
        at <= toks@.len(),
    ensures
        at < toks@.len() ==> (e matches ParseError::UnrecognizedToken { token, expected } && token == toks@[at as int]),
        at == toks@.len() && lexical is Some ==> e == (ParseError::User { error: lexical->Some_0 }),
        at == toks@.len() && lexical is None && toks@.len() > 0 ==> (e matches ParseError::UnrecognizedEof {
            location,
            expected,
        } && location == toks@.last().2),
        at == toks@.len() && lexical is None && toks@.len() == 0 ==> (e matches ParseError::UnrecognizedEof {
            location,
            expected,
        } && location == *start),
{
    if at < toks.len() {
        let t = &toks[at];
        ParseError::UnrecognizedToken { token: (t.0.duplicate(), t.1.duplicate(), t.2.duplicate()), expected: Vec::new() }
    } else {
        match lexical {
            Some(error) => ParseError::User { error },
            None => {
                let location = if toks.len() > 0 {
                    toks[toks.len() - 1].2.duplicate()
                } else {
                    start.duplicate()
                };
                ParseError::UnrecognizedEof { location, expected: Vec::new() }
            },
        }
    }
}

/// Parses `content`, the text of the file `file_name`, in the given form
/// of the language. A document comes back only where the text's tokens,
/// read to the end without a lexical error, close all indentation and read
/// as it, each holding what it was read from in the text; otherwise the
/// error names the file. A text too long for its
/// positions to be counted is refused as a whole.
pub fn parse_in(file_name: &str, content: &str, dialect: Dialect) -> (r: Result<File, Error>)
    ensures
        r matches Ok(f) ==> read_from(content@, f),
        r matches Err(Error::Parse { file_name: n, .. }) ==> n@ == file_name@,
        r matches Err(Error::TooLong { file_name: n }) ==> n@ == file_name@ && !fits(content@.len()),
        !fits(content@.len()) ==> r matches Err(Error::TooLong { .. }),
        fits(content@.len()) ==> exists|ts: Seq<SpannedTok>, err: Option<LexicalError>|
            #[trigger] lexes(file_name@, content@, dialect, ts, err) && parse_outcome(ts, err, r),
{
    let n = content.unicode_len();
    if n > (usize::MAX - 16) / 4 {
        return Err(Error::TooLong { file_name: string_of(file_name) });
    }
    let mut lexer = Lexer::new_in(file_name, content, dialect);
    let ghost l0 = lexer;
    let start = Point::at_start_of(file_name, content);
    let (toks, lexical) = tokenize(&mut lexer);
    proof {
        assert(l0.starts_at(file_name@, content@, dialect) && run_from(l0, toks@, lexical));
        assert(lexes(file_name@, content@, dialect, toks@, lexical));
    }
    let clean = lexical.is_none();
    match parse_tokens(&toks) {
        Ok(f) => {
            match lexical {
                None => {
                    proof {
                        assert(indent_balance(toks@) == 0);
                        assert(reads_as(toks@, f));
                        assert(read_from(content@, f));
                        assert(parse_outcome(toks@, lexical, Ok(f)));
                    }
                    Ok(f)
                },
                Some(e) => {
                    let ghost le = e;
                    let cause = failure(&toks, toks.len(), Some(e), &start);
                    let r = Err(Error::parse_error_in(file_name, cause));
                    proof {
                        assert(parse_outcome(toks@, Some(le), r));
                    }
                    r
                },
            }
        },
        Err(at) => {
            let ghost lx = lexical;
            let cause = failure(&toks, at, lexical, &start);
            let r = Err(Error::parse_error_in(file_name, cause));
            proof {
                assert(parse_outcome(toks@, lx, r));
            }
            r
        },
    }
}

/// Parses `content`, the text of the file `file_name`.
pub fn parse(file_name: &str, content: &str) -> (r: Result<File, Error>)
    ensures
        r matches Ok(f) ==> read_from(content@, f),
        r matches Err(Error::Parse { file_name: n, .. }) ==> n@ == file_name@,
        r matches Err(Error::TooLong { file_name: n }) ==> n@ == file_name@ && !fits(content@.len()),
        !fits(content@.len()) ==> r matches Err(Error::TooLong { .. }),
        fits(content@.len()) ==> exists|ts: Seq<SpannedTok>, err: Option<LexicalError>|
            #[trigger] lexes(file_name@, content@, Dialect::Current, ts, err) && parse_outcome(ts, err, r),
{
    parse_in(file_name, content, Dialect::Current)
}

/// In a document that parsing returns from the tokens `ts` of a text, a
/// word of a line carries the span of the one token that holds it;
/// emphasis, the span from the start of its opening delimiter to the end of
/// its closing one; a command's attribute list, the span from its `[` to
/// its `]`; and each attribute in it, the span of its own token.
pub proof fn lemma_parsed_spans(
    ts: Seq<SpannedTok>,
    err: Option<LexicalError>,
    f: File,
    k: int,
    m: int,
    cs: Vec<Content>,
    i: int,
)
    requires
        parse_outcome(ts, err, Ok(f)),
        0 <= k < f.pars@.len(),
        0 <= m < f.pars@[k].parts@.len(),
        f.pars@[k].parts@[m] == ParPart::Line(cs),
        0 <= i < cs@.len(),
    ensures
        cs@[i] matches Content::Word { word, loc } ==> exists|j: int|
            0 <= j < ts.len() && tv(ts[j].1) == TokV::Word(word@) && loc == Location::between(ts[j].0, ts[j].2),
        cs@[i] matches Content::Sugar(Sugar::Italic { delimiter, loc, .. }) ==> exists|j: int, e: int|
            0 <= j < e < ts.len() && tv(ts[j].1) == TokV::ItalicOpen(delimiter@) && tv(ts[e].1) == TokV::ItalicClose
                && loc == Location::between(ts[j].0, ts[e].2),
        cs@[i] matches Content::Sugar(Sugar::Bold { delimiter, loc, .. }) ==> exists|j: int, e: int|
            0 <= j < e < ts.len() && tv(ts[j].1) == TokV::BoldOpen(delimiter@) && tv(ts[e].1) == TokV::BoldClose
                && loc == Location::between(ts[j].0, ts[e].2),
        cs@[i] matches Content::Command { attrs: Some(l), .. } ==> exists|j: int, e: int|
            0 <= j < e < ts.len() && tv(ts[j].1) == TokV::LBracket && tv(ts[e].1) == TokV::RBracket && l.loc == Some(
                Location::between(ts[j].0, ts[e].2),
            ),
        cs@[i] matches Content::Command { attrs: Some(l), .. } ==> forall|x: int| 0 <= x < l.attrs@.len() ==> exists|j: int|
            0 <= j < ts.len() && tv(ts[j].1) == attr_tok(#[trigger] l.attrs@[x]) && match l.attrs@[x] {
                Attr::Named { loc, .. } => loc == Some(Location::between(ts[j].0, ts[j].2)),
                Attr::Unnamed { loc, .. } => loc == Some(Location::between(ts[j].0, ts[j].2)),
            },
{
    lemma_document_spans(f, ts, k, m, cs, i);
}

} // verus!
