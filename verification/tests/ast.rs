use emblem::ast::parsed::{Attr, Attrs};
use emblem::ast::AstDebug;

fn test_str_like<T: AstDebug>(f: fn(&'static str) -> T) {
    assert_eq!(r"", f("").repr());
    assert_eq!(r"hello, world", f("hello, world").repr());
    assert_eq!(r"\t", f("\t").repr());
    assert_eq!(r"\\", f(r"\").repr());
    assert_eq!(r"\\\|", f(r"\|").repr());
    assert_eq!(r"\|", f("|").repr());
    assert_eq!(r"\(", f("(").repr());
    assert_eq!(r"\)", f(")").repr());
    assert_eq!(r"\]", f("]").repr());
    assert_eq!(r"\[", f("[").repr());
    assert_eq!(r#"\""#, f("\"").repr());
    assert_eq!(r"'", f("'").repr());
}

#[test]
fn str() {
    test_str_like(|s| s);
}

#[test]
fn string() {
    test_str_like(|s| s.to_string())
}

#[test]
fn boxed() {
    test_str_like(|s| Box::new(s));
}

#[test]
fn vec() {
    assert_eq!(r"[]", &Vec::<&str>::new().repr());
    assert_eq!(r"[hello|world]", vec!["hello", "world"].repr());
    assert_eq!(r"[hello|world]", vec!["hello", "world"].repr());
    assert_eq!(r"[\[|\]|\(|\)|\|]", vec!["[", "]", "(", ")", "|"].repr());
}

#[test]
fn args() {
    let tests = vec![vec![], vec![Attr::unnamed("hello"), Attr::unnamed("world")]];
    for test in tests {
        assert_eq!(Attrs::new(test.clone()).args(), &test);
    }
}

#[test]
fn unnamed() {
    let raw = " \tfoo\t ";
    let attr = Attr::unnamed(raw);
    assert_eq!(attr.name(), "foo");
    assert_eq!(attr.value(), None);
    assert_eq!(attr.raw(), raw);
}

#[test]
fn named() {
    let raw = " \tfoo\t =\t bar \t";
    let attr = Attr::named(raw);
    assert_eq!(attr.name(), "foo");
    assert_eq!(attr.value(), Some("bar".to_string()));
    assert_eq!(attr.raw(), raw);
}
