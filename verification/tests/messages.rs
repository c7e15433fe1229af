use emblem::emblem_core::parser::location::Location;
use emblem::emblem_core::parser::point::Point;
use emblem::log::messages::{
    messages, Message, NewlineInInlineArg, NoSuchErrorCode, UnclosedComments, UnexpectedEOF,
};
use emblem::log::render::Tally;
use emblem::log::{Level, Log, Note, Src};
use std::collections::HashSet;

#[test]
fn get_explanation() {
    assert!(emblem::log::messages::get_explanation("E001").is_ok());
}

#[test]
fn explanation_refusals() {
    assert_eq!(emblem::log::messages::get_explanation("").unwrap_err().id, "");
    assert_eq!(emblem::log::messages::get_explanation("E999").unwrap_err().id, "E999");
    assert!(emblem::log::messages::get_explanation("E002").unwrap().starts_with("This error means"));
}

#[test]
fn naming() {
    let re = regex::Regex::new(r"^E\d{3}$").unwrap();
    let mut seen = HashSet::new();
    for info in messages().iter().filter(|info| !info.id().is_empty()) {
        assert!(seen.insert(info.id()), "Non-unique id: {}", info.id());
        assert!(re.is_match(info.id()), "Non-conformant id: {}", info.id());
    }
}

#[test]
fn not_too_long() {
    for info in messages() {
        let nchars = info.explanation().chars().count();
        let limit = if info.id().is_empty() { 0 } else { 1000 };
        assert!(nchars <= limit, "{} explanation is too long: contains {} chars", info.id(), nchars);
    }
}

#[test]
fn not_too_short() {
    for info in messages().iter().filter(|info| !info.id().is_empty()) {
        let nchars = info.explanation().chars().count();
        assert!(nchars >= 100, "{} explanation is too short: contains {} chars", info.id(), nchars);
    }
}

#[test]
fn no_such_error_code_log() {
    let log = NoSuchErrorCode::new("E9").log();
    assert_eq!(log.msg, "no such error code \"E9\"");
    assert_eq!(log.get_id(), Some("E001"));
    assert!(log.is_explainable());
}

#[test]
fn unclosed_comments_log() {
    let p = Point::at_start_of("f.em", "/* a");
    let q = p.duplicate().shift("/*");
    let loc = Location::new(&p, &q);
    let one = UnclosedComments::new(vec![loc.clone()]).log();
    assert_eq!(one.msg, "unclosed comment");
    assert_eq!(one.srcs.len(), 1);
    let two = UnclosedComments::new(vec![loc.clone(), loc]).log();
    assert_eq!(two.msg, "unclosed comments");
    assert_eq!(two.get_annotation_text().len(), 3);
}

#[test]
fn newline_in_inline_arg_log() {
    let p = Point::at_start_of("f.em", ".a{b\n}");
    let q = p.duplicate().shift(".a{b");
    let r = q.duplicate().shift("\n");
    let log = NewlineInInlineArg::new(Location::new(&p, &q), Location::new(&q, &r)).log();
    assert_eq!(log.get_id(), Some("E002"));
    assert_eq!(log.get_text().last().unwrap(), "consider using trailer (colon) arguments");
}

#[test]
fn unexpected_eof_log() {
    let p = Point::at_start_of("f.em", ".a{").shift(".a{");
    let log = UnexpectedEOF::new(p, vec!["‘}’".to_string()]).log();
    assert_eq!(log.msg, "unexpected eof");
    assert_eq!(log.note.as_deref(), Some("expected ‘}’"));
}

#[test]
fn rendering_layout() {
    let text = "first line\nsecond .bad line\nthird";
    let p = Point::at_start_of("r.em", text).shift("first line\nsecond ");
    let q = p.duplicate().shift(".bad");
    let loc = Location::new(&p, &q);
    let log = Log::warn("bad command")
        .id("E002")
        .explainable()
        .src(Src::new(&loc).annotate(Note::error(&loc, "found here")))
        .help("remove it")
        .note("just a test");
    assert!(log.can_show());
    let r = log.render(true);
    assert_eq!(r.level, Level::Error);
    assert_eq!(log.render(false).level, Level::Warning);
    assert_eq!(r.title, "bad command");
    assert_eq!(r.slices.len(), 1);
    assert_eq!(r.slices[0].source, "second .bad line");
    assert_eq!(r.slices[0].annotations[0].range, (7, 11));
    assert_eq!(r.footer, vec![(Level::Help, "remove it".to_string()), (Level::Note, "just a test".to_string())]);
    assert_eq!(r.explain_hint.as_deref(), Some("For more information about this error, try `em explain E002"));
}

#[test]
fn tally_summary() {
    let mut t = Tally::new();
    let s = t.summary("em");
    assert!(!s.failed && s.warnings.is_none() && s.failure.is_none());
    t.record(Level::Warning);
    t.record(Level::Info);
    t.record(Level::Error);
    t.record(Level::Error);
    let s = t.summary("em");
    assert!(s.failed);
    assert_eq!(s.warnings.unwrap().msg, "generated 1 warning");
    assert_eq!(s.failure.unwrap().msg, "`em` failed due to 2 errors");
}

#[test]
fn log_levels_and_texts() {
    let text = "one two";
    let p = Point::at_start_of("l.em", text);
    let q = p.duplicate().shift("one");
    let loc = Location::new(&p, &q);
    let log = Log::error("bad")
        .src(Src::new(&loc).annotate(Note::warn(&loc, "first")).annotate(Note::info(&loc, "second")))
        .help("fix it");
    assert_eq!(log.get_log_levels(), vec![Level::Error, Level::Warning, Level::Info]);
    assert_eq!(log.get_text(), vec!["bad", "first", "second", "fix it"]);
    assert_eq!(log.get_annotation_text(), vec!["bad".to_string(), "l.em:1:1-3: first".to_string(), "l.em:1:1-3: second".to_string()]);
}
