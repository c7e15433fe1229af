use emblem::lint::lints::{
    AttrOrdering, CommandNaming, DuplicateAttrs, EmptyAttrs, ExcessiveArgs, NumArgs, NumAttrs, NumPluses,
    SpiltGlue, SugarUsage,
};
use emblem::lint::tables::{sugar_for_name, SugarType};
use emblem::lint::{default_lints, lint_file, Lint};
use emblem::parser::parse;
use std::collections::HashSet;

/// Lints `src` with the one lint `lint`, expects `num_problems` problems and
/// each pattern of `matches` in the text of each problem.
fn run(lint: Lint, num_problems: usize, matches: &[&str], src: &str) {
    let file = parse("lint-test.em", src).expect("Failed to parse input");
    let problems = lint_file(&file, &vec![lint]);
    assert_eq!(num_problems, problems.len(), "for {:?}", src);
    for problem in problems {
        let mut texts = problem.get_annotation_text();
        texts.extend(problem.get_text());
        let text = texts.join("\n\t");
        for m in matches {
            let re = regex::Regex::new(m).unwrap();
            assert!(re.is_match(&text), "Could not match '{}' in:\n\t{}", m, text);
        }
    }
}

#[test]
fn attr_ordering_lint() {
    let ordering = || Lint::AttrOrdering(AttrOrdering::new());
    run(ordering(), 0, &[], "");
    run(ordering(), 0, &[], ".foo");
    run(ordering(), 0, &[], ".foo[bar]");
    run(ordering(), 0, &[], ".foo[bar,baz]");
    run(ordering(), 0, &[], ".foo[bar,baz=baz]");
    run(ordering(), 0, &[], ".foo[bar=bar,baz=baz]");
    run(ordering(), 1, &["unnamed attribute after named attribute", ":1:14-16: found here"], ".foo[bar=bar,baz]");
    run(
        ordering(),
        2,
        &["unnamed attribute after named attribute", ":1:(14-16|18-21): found here"],
        ".foo[bar=bar,baz,quux]",
    );
    run(
        ordering(),
        2,
        &["unnamed attribute after named attribute", ":1:(14-16|28-32): found here"],
        ".foo[bar=bar,baz,quux=quux,corge]",
    );
}

#[test]
fn duplicate_attrs_lint() {
    let dups = || Lint::DuplicateAttrs(DuplicateAttrs::new());
    run(dups(), 1, &[":10-12: found duplicate 'bar'", ":6-8: 'bar' first defined here"], ".foo[bar,bar]");
    run(dups(), 1, &[":14-20: found duplicate 'bar'", ":6-12: 'bar' first defined here"], ".foo[bar=baz,bar=baz]");
    run(dups(), 1, &[":10-16: found duplicate 'bar'", ":6-8: 'bar' first defined here"], ".foo[bar,bar=baz]");
}

#[test]
fn ids() {
    let valid = regex::Regex::new(r"^[a-z-]+$").unwrap();
    for lint in default_lints() {
        let id = lint.id();
        if !valid.is_match(id) {
            panic!("IDs should be lowercase with dashes: got {}", id);
        }
    }
}

#[test]
fn unique_ids() {
    let mut ids = HashSet::new();
    for lint in default_lints() {
        assert!(ids.insert(lint.id()), "id {:?} is not unique", lint.id());
    }
}

#[test]
fn num_pluses_empty() {
    run(Lint::NumPluses(NumPluses::new()), 0, &[], "");
}

#[test]
fn command() {
    let pluses = || Lint::NumPluses(NumPluses::new());
    run(pluses(), 0, &[], ".foo");
    run(pluses(), 0, &[], ".foo+");
    run(pluses(), 1, &["extra plus modifiers ignored", ":1:1-6: remove all but one plus symbol"], ".foo++");
}

#[test]
fn heading_sugar() {
    let pluses = || Lint::NumPluses(NumPluses::new());
    for level in 1..=6 {
        run(pluses(), 0, &[], &format!("{} foo", "#".repeat(level)));
        run(
            pluses(),
            0,
            &["extra plus modifiers ignored", ":1:1-6: remove all but one plus symbol"],
            &format!("{}+ foo", "#".repeat(level)),
        );
        run(
            pluses(),
            1,
            &["extra plus modifiers ignored", &format!(":1:1-{}: remove all but one plus symbol", level + 2)],
            &format!("{}++ foo", "#".repeat(level)),
        );
    }
}

#[test]
fn spilt_glue_lint() {
    let glue = || Lint::SpiltGlue(SpiltGlue::new());
    run(glue(), 0, &[], "");
    run(glue(), 0, &[], "a~b");
    run(glue(), 1, &["glue does not connect text fragments", ":1:2-3: found here"], "a ~b");
    run(glue(), 1, &["glue does not connect text fragments", ":1:2-3: found here"], "a~ b");
    run(glue(), 1, &["glue does not connect text fragments", ":1:2-4: found here"], "a ~ b");
    run(glue(), 1, &["glue does not connect text fragments", ":1:2-2: found here"], "a~");
    run(glue(), 1, &["glue does not connect text fragments", ":1:1-1: found here"], "~b");
}

#[test]
fn sugar_usage_lint() {
    let sugar = || Lint::SugarUsage(SugarUsage::new());
    run(sugar(), 0, &[], "");
    run(sugar(), 0, &[], "foo");
    run(sugar(), 0, &[], ".foo");
    for call in ["it", "bf", "tt", "sc", "af", "h1", "h2", "h3", "h4", "h5", "h6"] {
        run(sugar(), 0, &[], &format!(".{call}"));
        run(sugar(), 0, &[], &format!(".{call}{{foo}}{{bar}}"));
        match sugar_for_name(call).expect("every call here has sugar") {
            SugarType::Prefix(pre, alternative_pre) => {
                run(
                    sugar(),
                    1,
                    &[
                        &format!(r"syntactic sugar exists for \.{call}"),
                        &format!(":1:1-{}: found here", 1 + call.len()),
                        &format!("try using ‘{}’ instead", pre.replace('*', r"\*")),
                    ],
                    &format!(".{call}{{foo}}"),
                );
                if let Some(alternative_pre) = alternative_pre {
                    run(
                        sugar(),
                        1,
                        &[
                            &format!(r"syntactic sugar exists for \.{call}+"),
                            &format!(":1:1-{}: found here", 2 + call.len()),
                            &format!("try using ‘{}’ instead", alternative_pre.replace('*', r"\*").replace('+', r"\+")),
                        ],
                        &format!(".{call}+{{foo}}"),
                    );
                }
            }
            SugarType::Delimiters(delim) => run(
                sugar(),
                1,
                &[
                    &format!(r"syntactic sugar exists for \.{call}"),
                    &format!(":1:1-{}: found here", 1 + call.len()),
                    &format!("try surrounding argument in ‘{}’ instead", delim.replace('*', r"\*")),
                ],
                &format!(".{call}{{foo}}"),
            ),
        }
    }
}

#[test]
fn num_args_bounds() {
    let num_args = || Lint::NumArgs(NumArgs::new());
    run(num_args(), 0, &[], ".it{foo}");
    run(num_args(), 1, &["too few arguments passed to .it", "expected 1 argument"], ".it");
    run(num_args(), 1, &["too many arguments passed to .it", "expected 1 argument"], ".it{a}{b}");
    run(num_args(), 0, &[], ".foo{a}{b}{c}");
}

#[test]
fn num_attrs_bounds() {
    let num_attrs = || Lint::NumAttrs(NumAttrs::new());
    run(num_attrs(), 0, &[], ".it{foo}");
    run(num_attrs(), 1, &["too many attributes passed to .it"], ".it[a]{foo}");
}

#[test]
fn empty_attrs_found() {
    let empty = || Lint::EmptyAttrs(EmptyAttrs::new());
    run(empty(), 0, &[], ".foo[bar]");
    run(empty(), 1, &["empty attributes"], ".foo[]");
}

#[test]
fn command_naming_found() {
    let naming = || Lint::CommandNaming(CommandNaming::new());
    run(naming(), 0, &[], ".foo-bar2");
    run(naming(), 1, &[r"commands should be lowercase with dashes: got \.FooBar", "try changing this to .foobar"], ".FooBar");
}

#[test]
fn excessive_args_found() {
    let excess = || Lint::ExcessiveArgs(ExcessiveArgs::new());
    run(excess(), 0, &[], ".foo{a}");
    run(excess(), 0, &[], ".it{a}");
    run(excess(), 1, &["too many arguments passed to .it"], ".it{a}{b}");
}

#[test]
fn every_lint_sees_nested_content() {
    let file = parse("nested.em", ".foo{.bar++{x}}\n.baz{a ~b}").expect("Failed to parse input");
    let lints = vec![Lint::NumPluses(NumPluses::new()), Lint::SpiltGlue(SpiltGlue::new())];
    let problems = lint_file(&file, &lints);
    assert_eq!(problems.len(), 2);
    assert_eq!(problems[0].get_id(), Some("num-pluses"));
    assert_eq!(problems[1].get_id(), Some("spilt-glue"));
}
