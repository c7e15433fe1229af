use emblem::ast::AstDebug;
use emblem::emblem_core::parser::parse as parse_current;
use emblem::parser::parse as parse_legacy;

fn strip_newline(input: &str) -> &str {
    input.strip_suffix('\n').unwrap_or(input)
}

/// The current parser reads `input`, with and without a final newline, as
/// `expected`.
fn current(name: impl AsRef<str>, input: impl AsRef<str>, expected: impl AsRef<str>) {
    let (name, input, expected) = (name.as_ref(), input.as_ref(), expected.as_ref());
    let input = strip_newline(input);
    for text in [input.to_string(), format!("{}\n", input)] {
        match parse_current(name, &text) {
            Ok(file) => assert_eq!(file.repr(), expected, "{}: unexpected structure for {:?}", name, text),
            Err(e) => panic!("{}: expected Ok parse result when parsing {:?}, got: {}", name, text, e.to_string()),
        }
    }
}

/// The legacy parser reads `input`, and `input` with a newline added, as
/// `expected`.
fn legacy(name: &str, input: &str, expected: &str) {
    for text in [input.to_string(), format!("{}\n", input)] {
        match parse_legacy(name, &text) {
            Ok(file) => assert_eq!(file.repr(), expected, "{}: unexpected structure for {:?}", name, text),
            Err(e) => panic!("{}: expected Ok parse result when parsing {:?}, got: {}", name, text, e.to_string()),
        }
    }
}

fn both(name: &str, input: &str, expected: &str) {
    current(name, input, expected);
    legacy(name, input, expected);
}

/// The current parser refuses `input`, with and without a final newline,
/// with a message that matches `pattern` after the file name.
fn current_error(name: impl AsRef<str>, input: impl AsRef<str>, pattern: impl AsRef<str>) {
    let (name, input, pattern) = (name.as_ref(), input.as_ref(), pattern.as_ref());
    let re = regex::Regex::new(&format!("^{}", pattern)).unwrap();
    let input = strip_newline(input);
    for (name, text) in [(name.to_string(), input.to_string()), (format!("{} with newline", name), format!("{}\n", input))] {
        let result = parse_current(&name, &text);
        let msg = match result {
            Ok(_) => panic!("{}: unexpected success", name),
            Err(e) => e.to_string(),
        };
        assert!(msg.contains(&name), "expected file name {:?} in error message {:?}", name, msg);
        let msg = msg.replace("Unrecognized", "Unrecognised");
        let colon = msg.find(':').expect("no colon after file name");
        let rest = &msg[2 + colon..];
        assert!(re.is_match(rest), "{}: unexpected error:\n{}\n\nexpected message to start with:\n{}", name, rest, pattern);
    }
}

fn pluses_repr(n: usize) -> String {
    if n == 0 { String::new() } else { format!("({})", "+".repeat(n)) }
}

fn ast_debug_pluses(n: usize) -> String {
    pluses_repr(n)
}

/// `s` without its first newline and without the indentation that all its
/// lines share.
fn indoc(s: &str) -> String {
    let s = s.strip_prefix('\n').unwrap_or(s);
    let indent = s
        .lines()
        .filter(|l| !l.trim().is_empty())
        .map(|l| l.len() - l.trim_start().len())
        .min()
        .unwrap_or(0);
    let mut out = String::new();
    for line in s.split_inclusive('\n') {
        if line.trim().is_empty() {
            out.push_str(line.trim_start_matches(|c| c == ' ' || c == '\t'));
        } else {
            out.push_str(&line[indent..]);
        }
    }
    out
}

static DELIMS: [(&str, &str); 7] = [
    ("_", "$it(_)"),
    ("*", "$it(*)"),
    ("__", "$bf(__)"),
    ("**", "$bf(**)"),
    ("`", "$tt"),
    ("=", "$sc"),
    ("==", "$af"),
];

#[test]
fn mod_general() {
    current("empty", "#!", "File[Par[[Shebang()]]]");
    current("sole", "#!em build", "File[Par[[Shebang(em build)]]]");
    let tests = [("open brace", "{"), ("close brace", "}"), ("colon", ":"), ("double-colon", "::")];
    for (name, tok) in tests {
        let expected = if tok == "{" || tok == "}" {
            format!("Unrecognised token `\\{}` found at 1:1:1:{}", tok, 1 + tok.len())
        } else {
            format!("Unrecognised token `{}` found at 1:1:1:{}", tok, 1 + tok.len())
        };
        current_error(name, tok, &expected);
    }
}

#[test]
fn whitespace_preserved() {
    current("space", "#! em build", r"File[Par[[Shebang( em build)]]]");
    current("tab", "#!\tem build", r"File[Par[[Shebang(\tem build)]]]");
}

#[test]
fn only_at_start() {
    current_error("at-end", "#!foo\nbar\n#!baz", "Unrecognised token `word` found at 3:2:3:6");
}

#[test]
fn mod_empty() {
    both("empty", "", "File[Par[[]]]");
    both("single", "/**/", r"File[Par[[/*[]*/]]]");
    both("multiple", "/**//**/", r"File[Par[[/*[]*/|/*[]*/]]]");
    both("multiple with space gap", "/**/ /**/", r"File[Par[[/*[]*/|< >|/*[]*/]]]");
    both("multiple with tab gap", "/**/\t/**/", r"File[Par[[/*[]*/|<\t>|/*[]*/]]]");
    both("stacked", "/**/\n/**/", r"File[Par[[/*[]*/]|[/*[]*/]]]");
    both("pars with stacked", "/**/\n\n/**/\n/**/", r"File[Par[[/*[]*/]]|Par[[/*[]*/]|[/*[]*/]]]");
}

#[test]
fn mod_single_line() {
    both("single line", "hello, world!", "File[Par[[Word(hello,)|< >|Word(world!)]]]");
    both("single line with tabs", "hello,\tworld!", r"File[Par[[Word(hello,)|<\t>|Word(world!)]]]");
    both(
        "single line for many pars",
        "Spiderpig, Spiderpig,\n\nDoes whatever a Spiderpig does.\n\nCan he swing from a web?\n\nNo, he can't, he's a pig,\n\nLook out, he is a Spiderpig!",
        "File[Par[[Word(Spiderpig,)|< >|Word(Spiderpig,)]]|Par[[Word(Does)|< >|Word(whatever)|< >|Word(a)|< >|Word(Spiderpig)|< >|Word(does.)]]|Par[[Word(Can)|< >|Word(he)|< >|Word(swing)|< >|Word(from)|< >|Word(a)|< >|Word(web?)]]|Par[[Word(No,)|< >|Word(he)|< >|Word(can't,)|< >|Word(he's)|< >|Word(a)|< >|Word(pig,)]]|Par[[Word(Look)|< >|Word(out,)|< >|Word(he)|< >|Word(is)|< >|Word(a)|< >|Word(Spiderpig!)]]]",
    );
}

#[test]
fn mod_multiple_lines() {
    both(
        "multiple lines",
        "According to all known laws of aviation, there is no way that a bee should be able to fly.\nIts wings are too small to get its fat little body off the ground.\n\nThe bee, of course, flies anyway because bees don't care what humans think is impossible.",
        "File[Par[[Word(According)|< >|Word(to)|< >|Word(all)|< >|Word(known)|< >|Word(laws)|< >|Word(of)|< >|Word(aviation,)|< >|Word(there)|< >|Word(is)|< >|Word(no)|< >|Word(way)|< >|Word(that)|< >|Word(a)|< >|Word(bee)|< >|Word(should)|< >|Word(be)|< >|Word(able)|< >|Word(to)|< >|Word(fly.)]|[Word(Its)|< >|Word(wings)|< >|Word(are)|< >|Word(too)|< >|Word(small)|< >|Word(to)|< >|Word(get)|< >|Word(its)|< >|Word(fat)|< >|Word(little)|< >|Word(body)|< >|Word(off)|< >|Word(the)|< >|Word(ground.)]]|Par[[Word(The)|< >|Word(bee,)|< >|Word(of)|< >|Word(course,)|< >|Word(flies)|< >|Word(anyway)|< >|Word(because)|< >|Word(bees)|< >|Word(don't)|< >|Word(care)|< >|Word(what)|< >|Word(humans)|< >|Word(think)|< >|Word(is)|< >|Word(impossible.)]]]",
    );
}

#[test]
fn utf8() {
    current("cyrillic", "孫子 兵法", r"File[Par[[Word(孫子)|< >|Word(兵法)]]]");
}

#[test]
fn mod_command_only() {
    for num_pluses in 0..=3 {
        let pluses = "+".repeat(num_pluses);
        let ast_pluses = pluses_repr(num_pluses);
        both("command", &format!(".order-66{pluses}"), &format!("File[Par[[.order-66{ast_pluses}]]]"));
        current("with-qualifier", &format!(".order.66{pluses}"), &format!("File[Par[[.(order).66{ast_pluses}]]]"));
        current("trailing-dot", &format!(".order.66{pluses}."), &format!("File[Par[[.(order).66{ast_pluses}|Word(.)]]]"));
        current_error(
            "many-qualifiers",
            &format!(".it.belongs.in.a.museum{pluses}"),
            &format!("extra dots found at many-qualifiers[^:]*:1:12-12, many-qualifiers[^:]*:1:15-15, many-qualifiers[^:]*:1:17-17 in command name at many-qualifiers[^:]*:1:1-{}", 23 + num_pluses),
        );
        current_error(
            "empty-qualifier",
            &format!("..what{pluses}"),
            &format!("empty qualifier found at empty-qualifier[^:]*:1:1-2 in command name at empty-qualifier[^:]*:1:1-{}", 6 + num_pluses),
        );
    }
}

fn test_dash(name: &str, dash: &str, repr: &str) {
    both(name, dash, &format!("File[Par[[{}]]]", repr));
    both(name, &format!("a{}b", dash), &format!("File[Par[[Word(a)|{}|Word(b)]]]", repr));
    both(name, &format!("a {}b", dash), &format!("File[Par[[Word(a)|< >|{}|Word(b)]]]", repr));
    both(name, &format!("a{} b", dash), &format!("File[Par[[Word(a)|{}|< >|Word(b)]]]", repr));
    both(name, &format!("a {} b", dash), &format!("File[Par[[Word(a)|< >|{}|< >|Word(b)]]]", repr));
    both(name, &format!("a\n{}b", dash), &format!("File[Par[[Word(a)]|[{}|Word(b)]]]", repr));
    both(name, &format!("a{}\nb", dash), &format!("File[Par[[Word(a)|{}]|[Word(b)]]]", repr));
}

#[test]
fn mod_hyphen() {
    test_dash("hyphen", "-", "-");
}

#[test]
fn mod_en() {
    test_dash("en", "--", "--");
}

#[test]
fn mod_em() {
    test_dash("em", "---", "---");
}

fn test_glue(name: &str, glue: &str, repr: &str) {
    both(name, glue, &format!("File[Par[[SpiltGlue({})]]]", repr));
    both(name, &format!("a{}b", glue), &format!("File[Par[[Word(a)|{}|Word(b)]]]", repr));
    both(name, &format!("a {}b", glue), &format!("File[Par[[Word(a)|SpiltGlue( {})|Word(b)]]]", repr));
    both(name, &format!("a{} b", glue), &format!("File[Par[[Word(a)|SpiltGlue({} )|Word(b)]]]", repr));
    both(name, &format!("a {} b", glue), &format!("File[Par[[Word(a)|SpiltGlue( {} )|Word(b)]]]", repr));
    both(name, &format!("a\n{}b", glue), &format!("File[Par[[Word(a)]|[SpiltGlue({})|Word(b)]]]", repr));
    both(name, &format!("a{}\nb", glue), &format!("File[Par[[Word(a)|SpiltGlue({})]|[Word(b)]]]", repr));
    both(name, &format!("a{}", glue), &format!("File[Par[[Word(a)|SpiltGlue({})]]]", repr));
    both(name, &format!("{}b", glue), &format!("File[Par[[SpiltGlue({})|Word(b)]]]", repr));
}

#[test]
fn mod_glue() {
    test_glue("glue", "~", "~");
}

#[test]
fn mod_nbsp() {
    test_glue("nbsp", "~~", "~~");
}

#[test]
fn mod_mixed() {
    test_dash("em-hyph", "----", "---|-");
    test_dash("em-en", "-----", "---|--");
    test_dash("em-em", "------", "---|---");
    let glues = [("~", "~"), ("~~", "~~"), ("~ ", "SpiltGlue(~ )"), (" ~", "SpiltGlue( ~)"), (" ~ ", "SpiltGlue( ~ )")];
    for (raw, repr) in glues {
        let cases = [
            (format!("{raw}-"), format!("{repr}|-")),
            (format!("-{raw}"), format!("-|{repr}")),
            (format!("{raw}--"), format!("{repr}|--")),
            (format!("-{raw}-"), format!("-|{repr}|-")),
            (format!("--{raw}"), format!("--|{repr}")),
            (format!("{raw}---"), format!("{repr}|---")),
            (format!("-{raw}--"), format!("-|{repr}|--")),
            (format!("--{raw}-"), format!("--|{repr}|-")),
            (format!("---{raw}"), format!("---|{repr}")),
        ];
        for (to_test, expected) in cases {
            both("glue-mixed", &format!("a{to_test}b"), &format!("File[Par[[Word(a)|{expected}|Word(b)]]]"));
        }
    }
}

#[test]
fn mod_word() {
    current("ignore empty", "!!", "File[Par[[Word(!!)]]]");
    both("ignore unmatched at start", "spanish inquisition!", "File[Par[[Word(spanish)|< >|Word(inquisition!)]]]");
    both("ignore unmatched at end", "!spanish inquisition", "File[Par[[Word(!spanish)|< >|Word(inquisition)]]]");
}

#[test]
fn mod_short() {
    both("text", "!verb!", "File[Par[[!verb!]]]");
    both("comment", "!//!", "File[Par[[!//!]]]");
    both("multi line comment start", "!/*!", "File[Par[[!/*!]]]");
    both("multi line comment end", "!*/!", "File[Par[[!*/!]]]");
    legacy("empty", "!!", "File[Par[[!!]]]");
    both("with spaces", "!hello } world :: !", "File[Par[[!hello } world :: !]]]");
    both("ignored in comment", "//!asdf!", "File[Par[[//!asdf!]]]");
}

#[test]
fn multiple() {
    current("multiple-single-line", "!verb1! !verb2!", "File[Par[[!verb1!|< >|!verb2!]]]");
    current("multiple-single-line", "!verb1!\n!verb2!", "File[Par[[!verb1!]|[!verb2!]]]");
}

#[test]
fn mod_whole_line() {
    current("sole", "//", "File[Par[[//]]]");
    both("no gap", "//hello, world!\n", "File[Par[[//hello, world!]]]");
    both("leading space", "// hello, world!\n", "File[Par[[// hello, world!]]]");
    both("leading tab", "//\thello, world!\n", r"File[Par[[//\thello, world!]]]");
}

#[test]
fn mod_partial() {
    both("no gap", "to me!//to you!\n", r"File[Par[[Word(to)|< >|Word(me!)|//to you!]]]");
    both("space-after-comment", "to me!// to you!\n", r"File[Par[[Word(to)|< >|Word(me!)|// to you!]]]");
    both("space-after-comment", "to me!//\tto you!\n", r"File[Par[[Word(to)|< >|Word(me!)|//\tto you!]]]");
    both("space-before-comment", "to me! //to you!\n", "File[Par[[Word(to)|< >|Word(me!)|< >|//to you!]]]");
    both("tab-before-comment", "to me!\t//to you!\n", r"File[Par[[Word(to)|< >|Word(me!)|<\t>|//to you!]]]");
    both("surrounding-spaces", "to me! // to you!\n", r"File[Par[[Word(to)|< >|Word(me!)|< >|// to you!]]]");
    both("surrounding-tabs", "to me!\t//\tto you!\n", r"File[Par[[Word(to)|< >|Word(me!)|<\t>|//\tto you!]]]");
    both("surrounding-mix-1", "to me! //\tto you!\n", r"File[Par[[Word(to)|< >|Word(me!)|< >|//\tto you!]]]");
    both("surrounding-mix-2", "to me!\t// to you!\n", r"File[Par[[Word(to)|< >|Word(me!)|<\t>|// to you!]]]");
}

#[test]
fn mod_stacked() {
    let lines = [
        "There once was a ship that put to sea",
        "And the name of that ship was the Billy O’ Tea",
        "The winds blew hard, her bow dipped down",
        "Blow, me bully boys, blow",
    ];
    both(
        "multiple-comments",
        &format!("//{}\n", lines.join("\n//")),
        &format!("File[Par[[{}]]]", lines.iter().map(|l| format!("//{}", l)).collect::<Vec<_>>().join("]|[")),
    );
}

#[test]
fn mod_as_trailer_arg() {
    both("comment as sole arg", ".spaghetti:\n\t//and meatballs", "File[Par[.spaghetti::[Par[[//and meatballs]]]]]");
    both("comment as sole arg", ".spaghetti:\n\t/*and meatballs*/", "File[Par[.spaghetti::[Par[[/*[and meatballs]*/]]]]]");
}

#[test]
fn mod_whitespace_contents() {
    both("space only", "/* */", r"File[Par[[/*[ ]*/]]]");
    both("tab only", "/*\t*/", r"File[Par[[/*[\t]*/]]]");
}

#[test]
fn mod_with_text() {
    both("text", "/*spaghetti and meatballs*/", r"File[Par[[/*[spaghetti and meatballs]*/]]]");
    both("text with surrounding space", "/* spaghetti and meatballs */", r"File[Par[[/*[ spaghetti and meatballs ]*/]]]");
    both("text with newline", "/*spaghetti and\nmeatballs*/", r"File[Par[[/*[spaghetti and|\n|meatballs]*/]]]");
    both("multiple comments", "/*spaghetti*/\n/*and*/\n\n/*meatballs*/", r"File[Par[[/*[spaghetti]*/]|[/*[and]*/]]|Par[[/*[meatballs]*/]]]");
}

#[test]
fn mod_nested() {
    both("nested comment", "/*spaghetti/*and*/meatballs*/", r"File[Par[[/*[spaghetti|Nested[and]|meatballs]*/]]]");
    both(
        "nested and indented comment",
        "/*spaghetti\n\t/*\n\t\tand\n\t*/\nmeatballs*/",
        r"File[Par[[/*[spaghetti|\n|\t|Nested[\n|\t\tand|\n|\t]|\n|meatballs]*/]]]",
    );
    both(
        "nested unindented comment",
        "/*spaghetti\n\t/*\nand\n\t*/\nmeatballs*/",
        r"File[Par[[/*[spaghetti|\n|\t|Nested[\n|and|\n|\t]|\n|meatballs]*/]]]",
    );
}

#[test]
fn mod_final_indentation() {
    both("final tab indent", "/*spaghetti\n\t*/", r"File[Par[[/*[spaghetti|\n|\t]*/]]]");
    both("final spaces indent", "/*spaghetti\n    */", r"File[Par[[/*[spaghetti|\n|    ]*/]]]");
    both(
        "long, prettified comment block",
        "/* spaghetti\n *and\n *meatballs\n */",
        r"File[Par[[/*[ spaghetti|\n| *and|\n| *meatballs|\n| ]*/]]]",
    );
}

#[test]
fn mod_before_remainder_args() {
    both("single-line", "/*spaghetti*/.and: meatballs", "File[Par[[/*[spaghetti]*/|.and:[Word(meatballs)]]]]");
    both("multi-line", "/*spaghetti\n\t\t*/.and: meatballs", r"File[Par[[/*[spaghetti|\n|\t\t]*/|.and:[Word(meatballs)]]]]");
}

#[test]
fn mark() {
    current("sole", "@foo", "File[Par[[$mark[foo]]]]");
    current("mid-line", "hello @sup world", r"File[Par[[Word(hello)|< >|$mark[sup]|< >|Word(world)]]]");
    current("in-heading", "# @asdf", r"File[Par[[$h1{[$mark[asdf]]}]]]");
    for c in ['!', '?', '\'', '"', '(', ')'] {
        let repr = match c {
            '"' | '(' | ')' => format!(r"\{c}"),
            c => c.into(),
        };
        current(&format!("with-terminator-{c}"), &format!("#foo{c}"), &format!("File[Par[[$ref[foo]|Word({repr})]]]"));
    }
}

#[test]
fn reference() {
    current("sole", "#foo", "File[Par[[$ref[foo]]]]");
    current("mid-line", "hello #world!", "File[Par[[Word(hello)|< >|$ref[world]|Word(!)]]]");
    current("in-heading", "# #foo", "File[Par[[$h1{[$ref[foo]]}]]]");
    for c in ['!', '?', '\'', '"', '(', ')'] {
        let repr = match c {
            '"' | '(' | ')' => format!(r"\{c}"),
            c => c.into(),
        };
        current(&format!("with-terminator-{c}"), &format!("#foo{c}"), &format!("File[Par[[$ref[foo]|Word({repr})]]]"));
    }
}

#[test]
fn mod_inline_args() {
            for num_pluses in 0..=3 {
                let pluses = "+".repeat(num_pluses);
                let ast_pluses = ast_debug_pluses(num_pluses);

                current("sole", format!(".exec{}{{order66}}", pluses), format!(
                        "File[Par[[.exec{}{{[Word(order66)]}}]]]",
                        ast_pluses
                    ));
                current("sole-with-qualifier", format!(".ex.ec{}{{order66}}", pluses), format!(
                        "File[Par[[.(ex).ec{}{{[Word(order66)]}}]]]",
                        ast_pluses
                    ));
                current("start of line", format!(".old-man-say{}{{leave her Johnny, leave her}} tomorrow ye will get your pay", pluses), format!("File[Par[[.old-man-say{}{{[Word(leave)|< >|Word(her)|< >|Word(Johnny,)|< >|Word(leave)|< >|Word(her)]}}|< >|Word(tomorrow)|< >|Word(ye)|< >|Word(will)|< >|Word(get)|< >|Word(your)|< >|Word(pay)]]]", ast_pluses));
                current("end of line", format!("I hate to .sail.on{}{{this rotten tub}}", pluses), format!("File[Par[[Word(I)|< >|Word(hate)|< >|Word(to)|< >|.(sail).on{}{{[Word(this)|< >|Word(rotten)|< >|Word(tub)]}}]]]", ast_pluses));
                current("middle of line", format!("For the .voyage-is{}{{foul}} and the winds don't blow", pluses), format!("File[Par[[Word(For)|< >|Word(the)|< >|.voyage-is{}{{[Word(foul)]}}|< >|Word(and)|< >|Word(the)|< >|Word(winds)|< >|Word(don't)|< >|Word(blow)]]]", ast_pluses));
                current("nested", format!(".no{}{{grog .allowed{}{{and}} rotten grub}}", pluses, pluses), format!("File[Par[[.no{}{{[Word(grog)|< >|.allowed{}{{[Word(and)]}}|< >|Word(rotten)|< >|Word(grub)]}}]]]", ast_pluses, ast_pluses));

                current_error("newline in brace-arg", format!(".order66{}{{\n}}", pluses), format!(
                        "newline in braced args found at newline in brace-arg[^:]*:1:{}",
                        9 + num_pluses
                    ));
                current_error("newline in brace-arg", format!(".order66{}{{general\nkenobi}}", pluses), format!(
                        "newline in braced args found at newline in brace-arg[^:]*:1:{}",
                        9 + num_pluses
                    ));
                current_error("par-break in brace-arg", format!(".order66{}{{\n\n}}", pluses), format!(
                        "newline in braced args found at par-break in brace-arg[^:]*:1:{}",
                        9 + num_pluses
                    ));
                current_error("par-break in brace-arg", format!(".order66{}{{general\n\nkenobi}}", pluses), format!(
                        "newline in braced args found at par-break in brace-arg[^:]*:1:{}",
                        9 + num_pluses
                    ));
                current_error("many-qualifiers", format!(".order.6.6{}{{general\n\nkenobi}}", pluses), format!("extra dots found at many-qualifiers[^:]*:1:9-9 in command name at many-qualifiers[^:]*:1:1-{}", 10 + num_pluses));
            }
        }

#[test]
fn mod_remainder_args() {
            for num_pluses in 0..=3 {
                let pluses = "+".repeat(num_pluses);
                let ast_pluses = ast_debug_pluses(num_pluses);

                current("many-qualifiers", format!(".qual.ifier{pluses}"), format!("File[Par[[.(qual).ifier{ast_pluses}]]]"));
                current("start of line", format!(".now{}{{we are ready}}: to sail for the horn", pluses), format!("File[Par[[.now{}{{[Word(we)|< >|Word(are)|< >|Word(ready)]}}:[Word(to)|< >|Word(sail)|< >|Word(for)|< >|Word(the)|< >|Word(horn)]]]]", ast_pluses));
                current("middle of line", format!("our boots .and{}{{our clothes boys}}, are all in the pawn", pluses), format!("File[Par[[Word(our)|< >|Word(boots)|< >|.and{}{{[Word(our)|< >|Word(clothes)|< >|Word(boys)]}}|Word(,)|< >|Word(are)|< >|Word(all)|< >|Word(in)|< >|Word(the)|< >|Word(pawn)]]]", ast_pluses));
                current("nested", format!("the anchor's on board .and{}{{the cable's}}: .all: stored", pluses), format!("File[Par[[Word(the)|< >|Word(anchor's)|< >|Word(on)|< >|Word(board)|< >|.and{}{{[Word(the)|< >|Word(cable's)]}}:[.all:[Word(stored)]]]]]", ast_pluses));
                current("nested in braces", format!("Heave away, bullies, .you{}{{parish-rigged bums, .take: your hands from your pockets and don’t}}: suck your thumbs", pluses), format!("File[Par[[Word(Heave)|< >|Word(away,)|< >|Word(bullies,)|< >|.you{}{{[Word(parish)|-|Word(rigged)|< >|Word(bums,)|< >|.take:[Word(your)|< >|Word(hands)|< >|Word(from)|< >|Word(your)|< >|Word(pockets)|< >|Word(and)|< >|Word(don’t)]]}}:[Word(suck)|< >|Word(your)|< >|Word(thumbs)]]]]", ast_pluses));
                current("stacked", format!(".heave{}{{a pawl}}:, o heave away\n.way{}{{hay}}: roll 'an go!", pluses, pluses), format!("File[Par[[.heave{}{{[Word(a)|< >|Word(pawl)]}}:[Word(,)|< >|Word(o)|< >|Word(heave)|< >|Word(away)]]|[.way{}{{[Word(hay)]}}:[Word(roll)|< >|Word('an)|< >|Word(go!)]]]]", ast_pluses, ast_pluses));

                current_error("sole at end of line", ".randy-dandy-o:", "Unrecognised EOF found at (1:16|2:1)");
                current_error("end of line", "randy .dandy-o:", "Unrecognised token `newline` found at 1:1[56]");
                current_error("many-qualifiers", ".randy.dandy.o", "extra dots found at many-qualifiers[^:]*:1:13-13 in command name at many-qualifiers[^:]*:1:1-14");
            }
        }

#[test]
fn mod_trailer_args() {
            struct TrailerTest<'n, 'd, 'e> {
                name: &'n str,
                data: &'d [&'d str],
                expected_structure: &'e str,
            }

            for num_pluses in 0..=3 {
                let pluses = "+".repeat(num_pluses);
                let ast_pluses = ast_debug_pluses(num_pluses);
                let tests = [
                    TrailerTest {
                        name: "one par per trailer arg",
                        data: &[
                            &format!(".come{}{{all you}}:", pluses),
                            "\tyoung sailor men",
                            "\tlisten to me",
                            "::",
                            "\tI'll sing you a song",
                            "\tof the fish in the sea",
                        ],
                        expected_structure: &format!("File[Par[.come{}{{[Word(all)|< >|Word(you)]}}::[Par[[Word(young)|< >|Word(sailor)|< >|Word(men)]|[Word(listen)|< >|Word(to)|< >|Word(me)]]]::[Par[[Word(I'll)|< >|Word(sing)|< >|Word(you)|< >|Word(a)|< >|Word(song)]|[Word(of)|< >|Word(the)|< >|Word(fish)|< >|Word(in)|< >|Word(the)|< >|Word(sea)]]]]]", ast_pluses),
                    },
                    TrailerTest {
                        name: "command-with-qualifier",
                        data: &[
                            &format!(".come.all{}{{you}}:", pluses),
                            "\tyoung sailor men",
                            "\tlisten to me",
                            "::",
                            "\tI'll sing you a song",
                            "\tof the fish in the sea",
                        ],
                        expected_structure: &format!("File[Par[.(come).all{}{{[Word(you)]}}::[Par[[Word(young)|< >|Word(sailor)|< >|Word(men)]|[Word(listen)|< >|Word(to)|< >|Word(me)]]]::[Par[[Word(I'll)|< >|Word(sing)|< >|Word(you)|< >|Word(a)|< >|Word(song)]|[Word(of)|< >|Word(the)|< >|Word(fish)|< >|Word(in)|< >|Word(the)|< >|Word(sea)]]]]]", ast_pluses),
                    },
                    TrailerTest {
                        name: "two pars per trailer arg",
                        data: &[
                            &format!(".come{}{{all you}}:", pluses),
                            "\tyoung sailor men",
                            "\t",
                            "\tlisten to me",
                            "::",
                            "\tI'll sing you a song",
                            "",
                            "\tof the fish in the sea",
                        ],
                        expected_structure: &format!("File[Par[.come{}{{[Word(all)|< >|Word(you)]}}::[Par[[Word(young)|< >|Word(sailor)|< >|Word(men)]]|Par[[Word(listen)|< >|Word(to)|< >|Word(me)]]]::[Par[[Word(I'll)|< >|Word(sing)|< >|Word(you)|< >|Word(a)|< >|Word(song)]]|Par[[Word(of)|< >|Word(the)|< >|Word(fish)|< >|Word(in)|< >|Word(the)|< >|Word(sea)]]]]]", ast_pluses),
                    },
                    TrailerTest {
                        name: "nested trailers",
                        data: &[
                            &format!(".and{}{{it's}}:", pluses),
                            "\twindy weather, boys,",
                            &format!("\t.stormy-weather{}{{boys}}:", pluses),
                            "\t\twhen the wind blows,",
                            "\t::",
                            "\t\twe're all together, boys",
                            "\t\tblow ye winds westerly",
                            "",
                            &format!("\t.blow{}{{ye}}:", pluses),
                            "\t\twinds blow",
                            "",
                            "\t\tjolly sou'wester, boys",
                            &format!("\t\t.steady{}{{she goes}}:", pluses),
                            "\t\t\tup jumps the eeo with his slippery tail",
                            "\t\tclimbs up aloft and reefs the topsail",
                            "",
                            "\tthen up jumps the shark .with: his nine rows of teeth,",
                            "\t.saying: you eat the dough boys,",
                            &format!("\t.and{}{{I'll eat}}: the beef!", pluses),
                        ],
                        expected_structure: &format!("File[Par[.and{}{{[Word(it's)]}}::[Par[[Word(windy)|< >|Word(weather,)|< >|Word(boys,)]|.stormy-weather{}{{[Word(boys)]}}::[Par[[Word(when)|< >|Word(the)|< >|Word(wind)|< >|Word(blows,)]]]::[Par[[Word(we're)|< >|Word(all)|< >|Word(together,)|< >|Word(boys)]|[Word(blow)|< >|Word(ye)|< >|Word(winds)|< >|Word(westerly)]]]]|Par[.blow{}{{[Word(ye)]}}::[Par[[Word(winds)|< >|Word(blow)]]|Par[[Word(jolly)|< >|Word(sou'wester,)|< >|Word(boys)]|.steady{}{{[Word(she)|< >|Word(goes)]}}::[Par[[Word(up)|< >|Word(jumps)|< >|Word(the)|< >|Word(eeo)|< >|Word(with)|< >|Word(his)|< >|Word(slippery)|< >|Word(tail)]]]|[Word(climbs)|< >|Word(up)|< >|Word(aloft)|< >|Word(and)|< >|Word(reefs)|< >|Word(the)|< >|Word(topsail)]]]]|Par[[Word(then)|< >|Word(up)|< >|Word(jumps)|< >|Word(the)|< >|Word(shark)|< >|.with:[Word(his)|< >|Word(nine)|< >|Word(rows)|< >|Word(of)|< >|Word(teeth,)]]|[.saying:[Word(you)|< >|Word(eat)|< >|Word(the)|< >|Word(dough)|< >|Word(boys,)]]|[.and{}{{[Word(I'll)|< >|Word(eat)]}}:[Word(the)|< >|Word(beef!)]]]]]]", ast_pluses, ast_pluses, ast_pluses, ast_pluses, ast_pluses),
                    },
                    TrailerTest {
                        name: "remainder in trailer",
                        data: &[
                            &format!(".up{}{{jumps the .whale{}{{the .largest{}{{of}}: all}}}}:", pluses, pluses, pluses),
                            &format!("\tif you want any wind, I'll .blow{}{{ye's}}: a squall", pluses),
                        ],
                        expected_structure: &format!("File[Par[.up{}{{[Word(jumps)|< >|Word(the)|< >|.whale{}{{[Word(the)|< >|.largest{}{{[Word(of)]}}:[Word(all)]]}}]}}::[Par[[Word(if)|< >|Word(you)|< >|Word(want)|< >|Word(any)|< >|Word(wind,)|< >|Word(I'll)|< >|.blow{}{{[Word(ye's)]}}:[Word(a)|< >|Word(squall)]]]]]]", ast_pluses, ast_pluses, ast_pluses, ast_pluses)
                    },
                    TrailerTest {
                        name: "stacked trailers",
                        data: &[
                            &format!(".four{}:", pluses),
                            "\tand twenty British sailors",
                            &format!(".met{}:", pluses),
                            "\thim on the king's highway",
                            "",
                            &format!(".as{}:", pluses),
                            "\the went to be married",
                            &format!(".pressed{}{{he was}}:", pluses),
                            "\tand sent away",
                        ],
                        expected_structure: &format!("File[Par[.four{}::[Par[[Word(and)|< >|Word(twenty)|< >|Word(British)|< >|Word(sailors)]]]|.met{}::[Par[[Word(him)|< >|Word(on)|< >|Word(the)|< >|Word(king's)|< >|Word(highway)]]]]|Par[.as{}::[Par[[Word(he)|< >|Word(went)|< >|Word(to)|< >|Word(be)|< >|Word(married)]]]|.pressed{}{{[Word(he)|< >|Word(was)]}}::[Par[[Word(and)|< >|Word(sent)|< >|Word(away)]]]]]", ast_pluses, ast_pluses, ast_pluses, ast_pluses),
                    },
                ];
                for test in &tests {
                    let name_with_tabs = format!("{} (with tabs)", test.name);
                    let data_with_tabs = test.data.join("\n");
                    current(name_with_tabs, data_with_tabs, test.expected_structure);

                    let name_with_spaces = format!("{} (with spaces)", test.name);
                    let data_with_spaces = test
                        .data
                        .iter()
                        .map(|l| l.replace('\t', "    "))
                        .collect::<Vec<_>>()
                        .join("\n");
                    current(name_with_spaces, data_with_spaces, test.expected_structure);
                }

                current_error("end of populated line", indoc(
                        "
                            william taylor was a .brisk{young sailor}:
                            \tfull of heart and full of play
                        "
                    ), "Unrecognised token `newline` found at 1:43:2:1");
                current_error("missing indent", indoc(
                        "
                            .until{did his mind uncover}:
                            to a youthful lady gay
                        "
                    ), "Unrecognised token `word` found at 2:1:2:3");
                current_error("missing second trailer", indoc(
                        "
                            .until{did his mind uncover}:
                            \tto a youthful lady gay
                            ::
                            \tfour and twenty british sailors
                            ::
                        "
                    ), "Unrecognised EOF found at (5:3|6:1)");
                current_error("many-qualifiers", indoc(
                        "
                            .met.him.on.the{king's highway}:
                            \tas he went for to be married
                            ::
                            \tpressed he was and sent away
                        "
                    ), "extra dots found at many-qualifiers[^:]*:1:9-9, many-qualifiers[^:]*:1:12-12 in command name at many-qualifiers[^:]*:1:1-15");
            }
        }

#[test]
fn mod_attrs() {
            current("empty", "we are .outward-bound[]", "File[Par[[Word(we)|< >|Word(are)|< >|.outward-bound[]]]]");
            current("unnamed-only", "we are .outward-bound[for,kingston,town]", "File[Par[[Word(we)|< >|Word(are)|< >|.outward-bound[(for)|(kingston)|(town)]]]]");
            current("unnamed-only-with-spaces", "we are .outward-bound[ for , kingston , town ]", "File[Par[[Word(we)|< >|Word(are)|< >|.outward-bound[(for)|(kingston)|(town)]]]]");
            current("unnamed-only-with-tabs", "we are .outward-bound[\tfor\t,\tkingston\t,\ttown\t]", r"File[Par[[Word(we)|< >|Word(are)|< >|.outward-bound[(for)|(kingston)|(town)]]]]");

            current("named", "we are .outward-bound[for=kingston,town]", "File[Par[[Word(we)|< >|Word(are)|< >|.outward-bound[(for)=(kingston)|(town)]]]]");
            current("named-with-spaces", "we are .outward-bound[   for   =   kingston   ,   town   ]", "File[Par[[Word(we)|< >|Word(are)|< >|.outward-bound[(for)=(kingston)|(town)]]]]");
            current("named-with-spaces", "we are .outward-bound[\tfor\t=\tkingston\t,\ttown\t]", r"File[Par[[Word(we)|< >|Word(are)|< >|.outward-bound[(for)=(kingston)|(town)]]]]");

            current("with-inline-args", "and we'll .heave[the,old=wheel,round]{and}{round}", r"File[Par[[Word(and)|< >|Word(we'll)|< >|.heave[(the)|(old)=(wheel)|(round)]{[Word(and)]}{[Word(round)]}]]]");
            current("with-trailer-args", "and we'll .heave[the,old=wheel,round]: and round", r"File[Par[[Word(and)|< >|Word(we'll)|< >|.heave[(the)|(old)=(wheel)|(round)]:[Word(and)|< >|Word(round)]]]]");
            current("with-remainder-args", ".heave[the,old=wheel,round]:\n\tand\n::\n\tround", r"File[Par[.heave[(the)|(old)=(wheel)|(round)]::[Par[[Word(and)]]]::[Par[[Word(round)]]]]]");

            current_error("unclosed", ".heave[", "(unexpected EOF found at 1:8|newline in attributes found at unclosed with newline:1:7-7)");
            current_error("unexpected open bracket", ".heave[[", r"(unexpected EOF found at 1:9|unexpected character '\[' found at unexpected open bracket[^:]*:1:8-8)");
        }

#[test]
fn mod_mixed_nesting() {
                for (outer, outer_repr) in &DELIMS {
                    let sanitised_outer = outer.replace('*', r"\*");
                    let outer_chars = {
                        let mut outer_chars: Vec<_> = outer.chars().collect();
                        outer_chars.sort();
                        outer_chars.dedup();
                        outer_chars
                    };

                    for (inner, inner_repr) in &DELIMS {
                        current(format!("normal nesting {outer} and {inner}"), format!("{outer}spaghetti {inner}and{inner} meatballs{outer}"), format!("File[Par[[{outer_repr}{{[Word(spaghetti)|< >|{inner_repr}{{[Word(and)]}}|< >|Word(meatballs)]}}]]]"));

                        let inner_chars = {
                            let mut inner_chars: Vec<_> = inner.chars().collect();
                            inner_chars.sort();
                            inner_chars.dedup();
                            inner_chars
                        };

                        if outer_chars == inner_chars
                            && outer.len() >= inner.len()
                            && inner.len() != 2
                            && outer_chars != ['`']
                        {
                            // Check for troublesome nesting
                            let sanitised_inner = inner.replace('*', r"\*");
                            current_error(format!("clash-nesting {inner} and {outer}"), format!("{outer}spaghetti {inner}and meatballs{inner}{outer}"), format!(r"delimiter mismatch for {sanitised_inner} found at clash-nesting {sanitised_inner} and {sanitised_outer}[^:]*:1:{}-{} \(failed to match at clash-nesting {sanitised_inner} and {sanitised_outer}[^:]*:1:{}-{}\)", 24 + outer.len() + inner.len(), 24 + outer.len() + 2 * inner.len(), 11 + outer.len(), 10 + outer.len() + inner.len()));
                        } else {
                            // Check nesting is okay
                            current(format!("chash-nesting nesting {outer} and meatballs{inner}"), format!("{outer}spaghetti {inner}and meatballs{inner}{outer}"), format!("File[Par[[{outer_repr}{{[Word(spaghetti)|< >|{inner_repr}{{[Word(and)|< >|Word(meatballs)]}}]}}]]]"));
                        }
                    }
                }
            }

#[test]
fn mod_multi_line() {
                for (delim, _) in &DELIMS {
                    let sanitised = delim.replace('*', r"\*");
                    current_error(format!("multi-line {delim}"), format!("{delim}foo\nbar{delim}"), format!(r#"newline in "{sanitised}" emphasis found at multi-line {sanitised}[^:]*:1:{}-2:1"#, 4 + delim.len()));
                }
            }

#[test]
fn mod_mismatched() {
                for (left, _) in &DELIMS {
                    for (right, _) in &DELIMS {
                        if left == right {
                            continue;
                        }

                        let sanitised_left = left.replace('*', r"\*");
                        let sanitised_right = right.replace('*', r"\*");
                        current_error(format!("mismatch({left},{right})"), format!("{left}foo{right}"), format!(r"delimiter mismatch for {sanitised_left} found at mismatch\({sanitised_left},{sanitised_right}\)[^:]*:1:{}-{} \(failed to match at mismatch\({sanitised_left},{sanitised_right}\)[^:]*:1:1-{}\)", 4 + left.len(), 3 + left.len() + right.len(), left.len(),));
                    }
                }
            }

#[test]
fn mod_start_of_line() {
                for level in 1..=6 {
                    for pluses in 0..=2 {
                        current(format!("level:{level}, pluses:{pluses}"), format!("{}{} foo", "#".repeat(level), "+".repeat(pluses)), format!(
                                "File[Par[[$h{level}{}{{[Word(foo)]}}]]]",
                                if pluses > 0 {
                                    format!("({})", "+".repeat(pluses))
                                } else {
                                    "".into()
                                }
                            ));
                    }
                }

                current("nested inline args", "## .bar{baz}", "File[Par[[$h2{[.bar{[Word(baz)]}]}]]]");
                current("nested remainder args", "## .bar: baz", "File[Par[[$h2{[.bar:[Word(baz)]]}]]]");
                current_error("nested trailer args", "## .foo:\n\tbar", "Unrecognised token `newline` found at 1:9:2:1");

                current_error("nested headings", "## ## foo", "unexpected heading at nested headings[^:]*:1:4-5");
                current_error("no argument", "##", "Unrecognised token `newline` found at (1:1:1:3|1:3:2:1)");
            }

#[test]
fn mod_midline() {
                current_error("inline", "foo ###+ bar", "unexpected heading at inline[^:]*:1:5-8");
                current_error("inline-complex", "foo .bar: ###+ baz", "unexpected heading at inline[^:]*:1:11-14");
            }

#[test]
fn too_deep() {
                current_error("plain", "#######", r"heading too deep at plain[^:]*:1:1-7 \(7 levels\)");
                current_error("with-plus", "#######+", r"heading too deep at with-plus[^:]*:1:1-8 \(7 levels\)");
            }

#[test]
fn mod_unmatched() {
            current_error("open", "/*spaghetti/*and*/meatballs", r#"unclosed comment found at \["open[^:]*:1:1-2"\]"#);
            current_error("open", "/*spaghetti/*and meatballs", r#"unclosed comment found at \["open[^:]*:1:1-2", "open[^:]*:1:12-13"\]"#);
            current_error("close", "spaghetti/*and*/meatballs */", "no comment to close found at close[^:]*:1:27-28");
        }

#[test]
fn mod_before_trailer_args() {
            current_error("trailer-args", "/*spaghetti*/.and:\n\tmeatballs", "Unrecognised token `newline` found at 1:19");
        }

#[test]
fn mod_multi_line_comments() {
            current_error("multi-line comment open", "/*", r#"unclosed comment found at \["multi-line comment open[^\n]*:1:1-2"\]"#);
            current_error( "multi-line comment open", "/*/*", r#"unclosed comment found at \["multi-line comment open[^\n]*:1:1-2", "multi-line comment open[^\n]*:1:3-4"\]"#);
            current_error("multi-line comment close", "*/", r"no comment to close found at[^\n]*1:1-2");
        }
