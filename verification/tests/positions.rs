use emblem::emblem_core::parser::token::indent_level;
use emblem::emblem_core::parser::{Location, Point};
use emblem::parser::{Location as OldLocation, Point as OldPoint};

fn indent(s: &str) -> usize {
    let cs: Vec<char> = s.chars().collect();
    indent_level(&cs)
}

fn test_indent_str(expected: usize, s: &str) {
    assert_eq!(expected, indent(s));
    assert_eq!(expected, indent(&format!("{}foo", s)));
    assert_eq!(expected, indent(&format!("{}foo{}", s, s)));
}

#[test]
fn lexer_indent_level_counting() {
    test_indent_str(0, "");
    test_indent_str(1, " ");
    test_indent_str(1, "\t");
    test_indent_str(1, "    ");
    test_indent_str(2, "\t ");
    test_indent_str(2, " \t ");
    test_indent_str(2, "\t\t");
    test_indent_str(2, "        ");
    test_indent_str(3, "    \t    ");
}

#[test]
fn point_new() {
    let src = "content";
    let loc = Point::at_start_of("fname", src);
    assert_eq!("fname", loc.file_name);
    assert_eq!(src, loc.src());
    assert_eq!(0, loc.index());
    assert_eq!(1, loc.line());
    assert_eq!(1, loc.col());

    let loc = OldPoint::new("fname", src);
    assert_eq!("fname", loc.file_name);
    assert_eq!(src, loc.src);
    assert_eq!(0, loc.index);
    assert_eq!(1, loc.line);
    assert_eq!(0, loc.col);
}

#[test]
fn point_shift_single_line() {
    let src = "my name is methos";
    let start = Point::at_start_of("fname", src);
    let mid = start.shift("my name is ");
    let end = mid.clone().shift("methos");
    assert_eq!("fname", mid.file_name);
    assert_eq!(src, mid.src());
    assert_eq!(11, mid.index());
    assert_eq!(1, mid.line());
    assert_eq!(12, mid.col());
    assert_eq!("fname", end.file_name());
    assert_eq!(src, end.src());
    assert_eq!(17, end.index());
    assert_eq!(1, end.line());
    assert_eq!(18, end.col());

    let start = OldPoint::new("fname", src);
    let mid = start.clone().shift("my name is ");
    let end = mid.clone().shift("methos");
    assert_eq!("fname", mid.file_name);
    assert_eq!(src, mid.src);
    assert_eq!(11, mid.index);
    assert_eq!(1, mid.line);
    assert_eq!(11, mid.col);
    assert_eq!("fname", end.file_name);
    assert_eq!(src, end.src);
    assert_eq!(17, end.index);
    assert_eq!(1, end.line);
    assert_eq!(17, end.col);
    assert_eq!(Some("my name is ".to_string()), start.text_upto(&mid));
    assert_eq!(Some("methos".to_string()), mid.text_upto(&end));
    assert_eq!(Some("my name is methos".to_string()), start.text_upto(&end));
}

#[test]
fn point_tabs() {
    let src = "\thello,\tworld";
    let start = Point::at_start_of("fname", src);
    let end = start.shift(src);
    assert_eq!(13, end.index());
    assert_eq!(20, end.col());

    let start = OldPoint::new("fname", src);
    let end = start.shift(src);
    assert_eq!(13, end.index);
    assert_eq!(19, end.col);
}

#[test]
fn point_shift_multi_line() {
    let raw_src = "Welcome! Welcome to City 17! You have chosen, or been chosen, to relocate to one of our finest remaining urban centres";
    let src = raw_src.replace(' ', "\n");
    let start = Point::at_start_of("file_name", &src);
    let end = start.shift(&src);
    assert_eq!("file_name", end.file_name());
    assert_eq!(src, end.src());
    assert_eq!(21, end.line());
    assert_eq!(118, end.index());
    assert_eq!(8, end.col());

    let start = OldPoint::new("file_name", &src);
    let end = start.clone().shift(&src);
    assert_eq!("file_name", end.file_name);
    assert_eq!(src, end.src);
    assert_eq!(21, end.line);
    assert_eq!(118, end.index);
    assert_eq!(7, end.col);
    assert_eq!(start.text_upto(&end), Some(src.clone()));
}

#[test]
fn text_upto_different_locations() {
    let l1 = OldPoint::new("file1", "fubar");
    let l2 = OldPoint::new("file2", "snafu");
    assert_eq!(l1.text_upto(&l2), None);
}

#[test]
fn location_mid_line() {
    let text = "my name\nis methos";
    let start = Point::at_start_of("fname.em", text);
    let end = start.clone().shift(text);
    let loc = Location::new(&start, &end);
    assert_eq!("fname.em", loc.file_name());
    assert_eq!(text, loc.src());
    assert_eq!((start.line(), end.line()), loc.lines());
    assert_eq!((start.col(), end.col() - 1), loc.cols());

    let start = OldPoint::new("fname.em", text);
    let end = start.clone().shift(text);
    let loc = OldLocation::new(&start, &end);
    assert_eq!("fname.em", loc.file_name());
    assert_eq!(text, loc.src());
    assert_eq!((start.line, end.line), loc.lines());
    assert_eq!((start.col, end.col - 1), loc.cols());
}

#[test]
fn location_end_of_line() {
    let text = "my name is methos\n";
    let start = Point::at_start_of("fname.em", text);
    let end = start.clone().shift(text);
    let loc = Location::new(&start, &end);
    assert_eq!("fname.em", loc.file_name());
    assert_eq!(text, loc.src());
    assert_eq!((start.line(), end.line()), loc.lines());
    assert_eq!((start.col(), 1), loc.cols());

    let start = OldPoint::new("fname.em", text);
    let end = start.clone().shift(text);
    let loc = OldLocation::new(&start, &end);
    assert_eq!("fname.em", loc.file_name());
    assert_eq!(text, loc.src());
    assert_eq!((start.line, end.line), loc.lines());
    assert_eq!((start.col, 1), loc.cols());
}

#[test]
fn start() {
    let text = "my name is methos\n";
    let start = Point::at_start_of("fname.em", text);
    let end = start.clone().shift(text);
    let loc = Location::new(&start, &end);
    assert_eq!(loc.start(), start);
}

#[test]
fn end() {
    let text = "my name is methos\n";
    let start = Point::at_start_of("fname.em", text);
    let end = start.clone().shift(text);
    let loc = Location::new(&start, &end);
    assert_eq!(loc.end(), end);
}

#[test]
fn location_span_to() {
    let text = "my name is methos\n";
    let p1 = Point::at_start_of("fname.em", text);
    let p2 = p1.clone().shift("my name");
    let p3 = p2.clone().shift(" is ");
    let p4 = p2.clone().shift("methos");
    for (l1, l2) in vec![
        (Location::new(&p1, &p2), Location::new(&p3, &p4)),
        (Location::new(&p1, &p3), Location::new(&p2, &p4)),
        (Location::new(&p1, &p4), Location::new(&p2, &p3)),
    ] {
        for (l1, l2) in &[(&l1, &l2), (&l2, &l1)] {
            let span = l1.span_to(l2);
            assert_eq!(span.indices.0, l1.indices.0.min(l1.indices.1).min(l2.indices.0.min(l2.indices.1)));
            assert_eq!(span.indices.1, l1.indices.0.max(l1.indices.1).max(l2.indices.0.max(l2.indices.1)));
        }
    }

    let p1 = OldPoint::new("fname.em", text);
    let p2 = p1.clone().shift("my name");
    let p3 = p2.clone().shift(" is ");
    let p4 = p2.clone().shift("methos");
    for (l1, l2) in vec![
        (OldLocation::new(&p1, &p2), OldLocation::new(&p3, &p4)),
        (OldLocation::new(&p1, &p3), OldLocation::new(&p2, &p4)),
        (OldLocation::new(&p1, &p4), OldLocation::new(&p2, &p3)),
    ] {
        for (l1, l2) in &[(&l1, &l2), (&l2, &l1)] {
            let span = l1.span_to(l2);
            assert_eq!(span.indices.0, l1.indices.0.min(l1.indices.1).min(l2.indices.0.min(l2.indices.1)));
            assert_eq!(span.indices.1, l1.indices.0.max(l1.indices.1).max(l2.indices.0.max(l2.indices.1)));
        }
    }
}

#[test]
fn location_single_line() {
    let text = "oh! santiana gained a day";
    let text_start = Point::at_start_of("fname.em", text);
    let loc_start = text_start.clone().shift("oh! ");
    let loc_end = loc_start.clone().shift("santiana");
    let loc = Location::new(&loc_start, &loc_end);
    let context = loc.context();
    assert_eq!(context.raw(), text);
    assert_eq!(context.range(), (0, text.len()));
    assert_eq!(loc.indices_in(&context), (4, 12));

    let text_start = OldPoint::new("fname.em", text);
    let loc_start = text_start.clone().shift("oh! ");
    let loc_end = loc_start.clone().shift("santiana");
    let loc = OldLocation::new(&loc_start, &loc_end);
    let context = loc.context();
    assert_eq!(context.src(), text);
    assert_eq!(context.starting_index(), 0);
    assert_eq!(loc.indices(&context), (4, 12));
}

#[test]
fn location_multi_line() {
    let lines = [
        "oh! santiana gained a day",
        "away santiana!",
        "'napoleon of the west,' they say",
        "along the plains of mexico",
    ];
    for newline in ["\n", "\r", "\r\n"] {
        let text = lines.join(newline);
        let loc_start_shift = format!("oh! santiana gained a day{newline}away ");
        let loc_text = format!("santiana!{newline}'napoleon of");

        let text_start = Point::at_start_of("fname.em", &text);
        let loc_start = text_start.clone().shift(&loc_start_shift);
        let loc_end = loc_start.clone().shift(&loc_text);
        let loc = Location::new(&loc_start, &loc_end);
        let context = loc.context();
        assert_eq!(context.raw(), lines[1..3].join(newline));
        assert_eq!(context.range().0, 25 + newline.len());
        assert_eq!(loc.indices_in(&context), (5, 26 + newline.len()));

        let text_start = OldPoint::new("fname.em", &text);
        let loc_start = text_start.clone().shift(&loc_start_shift);
        let loc_end = loc_start.clone().shift(&loc_text);
        let loc = OldLocation::new(&loc_start, &loc_end);
        let context = loc.context();
        assert_eq!(context.src(), lines[1..3].join(newline));
        assert_eq!(context.starting_index(), 25 + newline.len());
        assert_eq!(loc.indices(&context), (5, 26 + newline.len()));
    }
}

#[test]
fn getters() {
    let src = "all your base are belong to us";
    let ctx = emblem::parser::LocationContext::new(src, 12);

    assert_eq!(src, ctx.src());
    assert_eq!(12, ctx.starting_index());
}

#[test]
fn region_new() {
    let text = "my name\nis methos";
    let start = OldPoint::new("fname.em", text);
    let end = start.clone().shift(text);

    let region = emblem::ast::region::Region::new(&start, &end);

    assert_eq!("fname.em", region.file_name);
    assert_eq!(text, region.src);
    assert_eq!((start.line, end.line), region.lines);
    assert_eq!((start.col, end.col), region.cols);
    assert_eq!((start.index, end.index), region.indices);
}

#[test]
fn region_text() {
    let text = "my name\nis methos";
    let start = OldPoint::new("fname.em", text);
    let end = start.clone().shift(text);
    let region = emblem::ast::region::Region::new(&start, &end);
    assert_eq!(region.to_string(), format!("fname.em:{}-{}:{}-{}", start.line, end.line, start.col, end.col));
    let one = emblem::ast::region::Region::new(&start, &start);
    assert_eq!(one.to_string(), format!("fname.em:{}:{}", start.line, start.col));
    let mid = start.clone().shift("my");
    let same_line = emblem::ast::region::Region::new(&start, &mid);
    assert_eq!(same_line.to_string(), format!("fname.em:{}:{}-{}", start.line, start.col, mid.col));
}
