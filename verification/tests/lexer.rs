use emblem::emblem_core::parser::lexer::{tokenize, Lexer, LexicalError};
use emblem::emblem_core::parser::token::Tok;

fn kinds(input: &str) -> (Vec<Tok>, Option<LexicalError>) {
    let mut lexer = Lexer::new("f", input);
    let (toks, err) = tokenize(&mut lexer);
    (toks.into_iter().map(|t| t.1).collect(), err)
}

fn prefix_balances(toks: &[Tok]) -> Vec<i64> {
    let mut depth = 0i64;
    let mut out = Vec::new();
    for t in toks {
        match t {
            Tok::Indent => depth += 1,
            Tok::Dedent => depth -= 1,
            _ => {},
        }
        out.push(depth);
    }
    out
}

#[test]
fn two_lines_with_indentation() {
    let (toks, err) = kinds("a\n\tb");
    assert!(err.is_none());
    assert_eq!(
        toks,
        vec![
            Tok::Word("a".to_string()),
            Tok::Newline { at_eof: false },
            Tok::Indent,
            Tok::Word("b".to_string()),
            Tok::Newline { at_eof: true },
            Tok::Dedent,
        ]
    );
}

#[test]
fn indentation_never_below_margin() {
    for input in ["a\n\tb\n\t\tc\nd", "x\n    y\n  z\n", "\t\ta\nb", ""] {
        let (toks, err) = kinds(input);
        assert!(err.is_none());
        let balances = prefix_balances(&toks);
        assert!(balances.iter().all(|b| *b >= 0));
        assert_eq!(balances.last().copied().unwrap_or(0), 0);
        assert!(toks.iter().any(|t| matches!(t, Tok::Newline { .. })));
    }
}

#[test]
fn empty_text_gives_one_newline() {
    let (toks, err) = kinds("");
    assert!(err.is_none());
    assert_eq!(toks, vec![Tok::Newline { at_eof: true }]);
}

#[test]
fn first_token_starts_at_the_beginning() {
    let mut lexer = Lexer::new("f", "hello world");
    match lexer.next() {
        Some(Ok((start, Tok::Word(w), end))) => {
            assert_eq!(w, "hello");
            assert_eq!(start.file_name, "f");
            assert_eq!(start.src, "hello world");
            assert_eq!((start.line, start.col, start.index), (1, 1, 0));
            assert_eq!(end.index, 5);
        },
        other => panic!("unexpected first step: {:?}", other),
    }
}

#[test]
fn emphasis_delimiters_by_kind() {
    let (toks, err) = kinds("_a_ **b** =c= `d`");
    assert!(err.is_none());
    assert_eq!(toks[0], Tok::ItalicOpen("_".to_string()));
    assert_eq!(toks[2], Tok::ItalicClose);
    assert_eq!(toks[4], Tok::BoldOpen("**".to_string()));
    assert_eq!(toks[6], Tok::BoldClose);
    assert_eq!(toks[8], Tok::SmallcapsOpen);
    assert_eq!(toks[10], Tok::SmallcapsClose);
    assert_eq!(toks[12], Tok::MonospaceOpen);
    assert_eq!(toks[14], Tok::MonospaceClose);
}

#[test]
fn blank_line_queues_paragraph_break() {
    let (toks, err) = kinds("a\n\nb");
    assert!(err.is_none());
    assert_eq!(
        toks,
        vec![
            Tok::Word("a".to_string()),
            Tok::Newline { at_eof: false },
            Tok::ParBreak,
            Tok::Word("b".to_string()),
            Tok::Newline { at_eof: true },
        ]
    );
}

#[test]
fn stray_comment_close_stops_the_lexer() {
    let mut lexer = Lexer::new("f", "*/");
    match lexer.next() {
        Some(Err(e)) => {
            assert!(matches!(e, LexicalError::UnmatchedCommentClose { .. }));
            let loc = e.location().unwrap();
            assert_eq!(loc.file_name(), "f");
            assert_eq!(loc.lines(), (1, 1));
            assert_eq!(loc.indices_in(&loc.context()), (0, 2));
        },
        other => panic!("unexpected first step: {:?}", other),
    }
    assert!(lexer.next().is_none());
    assert!(lexer.next().is_none());
}

#[test]
fn lexer_stays_stopped_after_the_end() {
    let mut lexer = Lexer::new("f", "a");
    let mut steps = 0;
    while let Some(r) = lexer.next() {
        assert!(r.is_ok());
        steps += 1;
    }
    assert_eq!(steps, 2);
    assert!(lexer.next().is_none());
}

#[test]
fn blank_line_then_indented_line() {
    let (toks, err) = kinds("a\n\n\tb");
    assert!(err.is_none());
    assert_eq!(
        toks,
        vec![
            Tok::Word("a".to_string()),
            Tok::Newline { at_eof: false },
            Tok::Indent,
            Tok::ParBreak,
            Tok::Word("b".to_string()),
            Tok::Newline { at_eof: true },
            Tok::Dedent,
        ]
    );
}

#[test]
fn indentation_by_spaces_rounds_up() {
    let (toks, err) = kinds("a\n     b\nc");
    assert!(err.is_none());
    let indents = toks.iter().filter(|t| matches!(t, Tok::Indent)).count();
    let dedents = toks.iter().filter(|t| matches!(t, Tok::Dedent)).count();
    assert_eq!((indents, dedents), (2, 2));
}

#[test]
fn multi_line_comment_tokens() {
    let (toks, err) = kinds("/* a */");
    assert!(err.is_none());
    assert_eq!(
        toks,
        vec![
            Tok::NestedCommentOpen,
            Tok::Comment(" a ".to_string()),
            Tok::NestedCommentClose,
            Tok::Newline { at_eof: true },
        ]
    );
}

#[test]
fn unclosed_comment_is_an_error() {
    let (toks, err) = kinds("/* a");
    assert_eq!(toks, vec![Tok::NestedCommentOpen, Tok::Comment(" a".to_string())]);
    assert!(matches!(err, Some(LexicalError::UnmatchedCommentOpen { .. })));
}

#[test]
fn attribute_list_tokens() {
    let (toks, err) = kinds(".f[a,b=c]");
    assert!(err.is_none());
    assert!(matches!(toks[0], Tok::Command { .. }));
    assert_eq!(toks[1], Tok::LBracket);
    assert_eq!(toks[2], Tok::UnnamedAttr("a".to_string()));
    assert_eq!(toks[3], Tok::AttrComma);
    assert_eq!(toks[4], Tok::NamedAttr("b=c".to_string()));
    assert_eq!(toks[5], Tok::RBracket);
}

#[test]
fn line_break_in_attributes_is_an_error() {
    let (_, err) = kinds(".f[a\n]");
    assert!(matches!(err, Some(LexicalError::NewlineInAttrs { .. })));
}
