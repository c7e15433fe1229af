//! The lints.
use vstd::prelude::*;
use crate::ast::parsed::{attr_name, Attr, Attrs, Content, Sugar};
use crate::emblem_core::parser::location::Location;
use crate::lint::tables::{
    arg_bounds, arg_bounds_of, arg_limit, arg_limit_of, attr_bounds, attr_bounds_of, sugar_for, sugar_for_name,
    SugarType,
};
use crate::log::{plural, Level, Log, Note, Src};
use crate::pattern::{is_match, regex_is_match};
use crate::text::{decimal, push_decimal, push_str, str_lowercase, string_of};

verus! {

/// The number of arguments a command was given: inline ones, a remainder
/// one and trailer ones.
pub open spec fn arg_count(c: Content) -> int {
    match c {
        Content::Command { inline_args, remainder_arg, trailer_args, .. } => inline_args@.len() + (if remainder_arg is Some {
            1int
        } else {
            0int
        }) + trailer_args@.len(),
        _ => 0,
    }
}

/// The name of a command, where `c` is one.
pub open spec fn command_name(c: Content) -> Option<Seq<char>> {
    match c {
        Content::Command { name, .. } => Some(name@),
        _ => None,
    }
}

fn count_args(c: &Content) -> (n: usize)
    requires
        c is Command,
        arg_count(*c) <= usize::MAX,
    ensures
        n == arg_count(*c),
{
    match c {
        Content::Command { inline_args, remainder_arg, trailer_args, .. } => {
            let r: usize = if remainder_arg.is_some() { 1 } else { 0 };
            inline_args.len() + r + trailer_args.len()
        },
        _ => 0,
    }
}

/// `a` then `b` as one text.
fn concat(a: &str, b: &str) -> (s: String)
    ensures
        s@ == a@ + b@,
{
    let mut s = string_of(a);
    push_str(&mut s, b);
    s
}

/// `expected {n} {noun}`, with the noun in the plural unless `n` is one.
fn expected_count(lead: &str, n: usize, one: &'static str, many: &'static str) -> (s: String)
    ensures
        s@ == lead@ + decimal(n as nat) + " "@ + (if n == 1 { one } else { many })@,
{
    let mut s = string_of(lead);
    push_decimal(&mut s, n);
    push_str(&mut s, " ");
    push_str(&mut s, plural(n, one, many));
    s
}

/// `{lead}{n} {noun}`, with the noun in the plural unless `n` is one.
pub open spec fn count_text(lead: Seq<char>, n: nat, one: Seq<char>, many: Seq<char>) -> Seq<char> {
    lead + decimal(n) + " "@ + (if n == 1 { one } else { many })
}

/// The remark on `n` things given where from `min` to `max` are taken: the
/// number expected, as a bound where the bounds differ.
pub open spec fn bounds_note(min: usize, max: usize, n: int, one: Seq<char>, many: Seq<char>) -> Seq<char> {
    if max == min && n != max {
        count_text("expected "@, max as nat, one, many)
    } else if n > max {
        count_text("expected at most "@, max as nat, one, many)
    } else {
        count_text("expected at least "@, min as nat, one, many)
    }
}

/// `l` shows the span `loc` with one remark, of the level `level`, `note`,
/// about the span `at`.
pub open spec fn shows_one(l: Log, loc: Location, at: Location, level: Level, note: Seq<char>) -> bool {
    &&& l.srcs@.len() == 1
    &&& l.srcs@[0].loc == loc
    &&& l.srcs@[0].annotations@.len() == 1
    &&& l.srcs@[0].annotations@[0].loc == at
    &&& l.srcs@[0].annotations@[0].msg_type == level
    &&& l.srcs@[0].annotations@[0].msg@ == note
}

/// `l` has no identifier, help or note, and no longer explanation.
pub open spec fn bare(l: Log) -> bool {
    l.id is None && l.help is None && l.note is None && !l.explainable
}

/// Whether `c` is a command with bounds on its arguments and a number of
/// them outside the bounds.
pub open spec fn num_args_fires(c: Content) -> bool {
    command_name(c) matches Some(n) && arg_bounds(n) matches Some((min, max)) && (arg_count(c) < min
        || arg_count(c) > max || (min == max && arg_count(c) != max))
}

/// Warns of commands given the wrong number of arguments.
pub struct NumArgs {}

impl NumArgs {
    pub fn new() -> (l: NumArgs) {
        NumArgs {}
    }

    /// A warning where `content` is a command with bounds on its arguments
    /// and a number of them outside the bounds: "too many" or "too few".
    pub fn analyse(&self, content: &Content) -> (r: Vec<Log>)
        ensures
            num_args_reports(*content, r@),
    {
        let mut r: Vec<Log> = Vec::new();
        match content {
            Content::Command { name, loc, invocation_loc, inline_args, trailer_args, .. } => {
                let (min, max) = match arg_bounds_of(name.as_str()) {
                    Some(b) => b,
                    None => { return r; },
                };
                if trailer_args.len() >= usize::MAX - 1 || inline_args.len() > usize::MAX - 1 - trailer_args.len() {
                    let msg = concat("too many arguments passed to .", name.as_str());
                    r.push(Log::warn(msg.as_str()));
                    return r;
                }
                let n = count_args(content);
                let (msg, note) = if max == min && n != max {
                    let lead = if n > max { "too many arguments passed to ." } else { "too few arguments passed to ." };
                    (concat(lead, name.as_str()), expected_count("expected ", max, "argument", "arguments"))
                } else if n > max {
                    (concat("too many arguments passed to .", name.as_str()), expected_count("expected at most ", max, "argument", "arguments"))
                } else if n < min {
                    (concat("too few arguments passed to .", name.as_str()), expected_count("expected at least ", min, "argument", "arguments"))
                } else {
                    return r;
                };
                r.push(Log::warn(msg.as_str()).src(Src::new(loc).annotate(Note::info(invocation_loc, note.as_str()))));
                r
            },
            _ => r,
        }
    }
}

/// The number of attributes a command was given.
pub open spec fn attr_count(c: Content) -> int {
    match c {
        Content::Command { attrs, .. } => match attrs {
            Some(a) => a.attrs@.len() as int,
            None => 0,
        },
        _ => 0,
    }
}

/// Where a remark on the attributes of a command points: at the list,
/// where known, else at the command's name.
pub open spec fn attrs_report_loc(attrs: Option<Attrs>, invocation_loc: Location) -> Location {
    match attrs {
        Some(a) => match a.loc {
            Some(l) => l,
            None => invocation_loc,
        },
        None => invocation_loc,
    }
}

/// Warns of commands given the wrong number of attributes.
pub struct NumAttrs {}

impl NumAttrs {
    pub fn new() -> (l: NumAttrs) {
        NumAttrs {}
    }

    /// A warning where `content` is a command with bounds on its attributes
    /// and a number of them outside the bounds.
    pub fn analyse(&self, content: &Content) -> (r: Vec<Log>)
        ensures
            num_attrs_reports(*content, r@),
    {
        let mut r: Vec<Log> = Vec::new();
        match content {
            Content::Command { name, loc, invocation_loc, attrs, .. } => {
                let (min, max) = match attr_bounds_of(name.as_str()) {
                    Some(b) => b,
                    None => { return r; },
                };
                let n = match attrs {
                    Some(a) => a.attrs.len(),
                    None => 0,
                };
                let report_loc = match attrs {
                    Some(a) => match &a.loc {
                        Some(l) => l.duplicate(),
                        None => invocation_loc.duplicate(),
                    },
                    None => invocation_loc.duplicate(),
                };
                let (msg, note) = if max == min && n != max {
                    let lead = if n > max { "too many attributes passed to ." } else { "too few attributes passed to ." };
                    (concat(lead, name.as_str()), expected_count("expected ", max, "attribute", "attributes"))
                } else if n > max {
                    (concat("too many attributes passed to .", name.as_str()), expected_count("expected at most ", max, "attribute", "attributes"))
                } else if n < min {
                    (concat("too few attributes passed to .", name.as_str()), expected_count("expected at least ", min, "attribute", "attributes"))
                } else {
                    return r;
                };
                r.push(Log::warn(msg.as_str()).src(Src::new(loc).annotate(Note::info(&report_loc, note.as_str()))));
                r
            },
            _ => r,
        }
    }
}

/// Warns of commands given more arguments than they take.
pub struct ExcessiveArgs {}

impl ExcessiveArgs {
    pub fn new() -> (l: ExcessiveArgs) {
        ExcessiveArgs {}
    }

    /// A warning where `content` is a command with a limit on its arguments
    /// and more than that many of them.
    pub fn analyse(&self, content: &Content) -> (r: Vec<Log>)
        ensures
            excessive_args_reports(*content, r@),
    {
        let mut r: Vec<Log> = Vec::new();
        match content {
            Content::Command { name, loc, invocation_loc, inline_args, trailer_args, .. } => {
                let max = match arg_limit_of(name.as_str()) {
                    Some(m) => m,
                    None => { return r; },
                };
                let msg = concat("too many arguments passed to .", name.as_str());
                if trailer_args.len() >= usize::MAX - 1 || inline_args.len() > usize::MAX - 1 - trailer_args.len() {
                    r.push(Log::warn(msg.as_str()));
                    return r;
                }
                let n = count_args(content);
                if n > max {
                    let note = expected_count("expected at most ", max, "arguments", "arguments");
                    r.push(Log::warn(msg.as_str()).src(Src::new(loc).annotate(Note::info(invocation_loc, note.as_str()))));
                }
                r
            },
            _ => r,
        }
    }
}

/// The number of plus marks on a command or heading.
pub open spec fn plus_count(c: Content) -> Option<usize> {
    match c {
        Content::Command { pluses, .. } => Some(pluses),
        Content::Sugar(Sugar::Heading { pluses, .. }) => Some(pluses),
        _ => None,
    }
}

/// Warns of more than one plus mark on a command or heading.
pub struct NumPluses {}

impl NumPluses {
    pub fn new() -> (l: NumPluses) {
        NumPluses {}
    }

    fn message(loc: &Location, invocation_loc: &Location) -> (l: Log)
        ensures
            l.msg@ == "extra plus modifiers ignored"@,
            l.msg_type == Level::Warning,
            bare(l),
            shows_one(l, *loc, *invocation_loc, Level::Help, "remove all but one plus symbol"@),
    {
        Log::warn("extra plus modifiers ignored").src(
            Src::new(loc).annotate(Note::help(invocation_loc, "remove all but one plus symbol")),
        )
    }

    /// A warning where `content` is a command or heading with two or more
    /// plus marks.
    pub fn analyse(&self, content: &Content) -> (r: Vec<Log>)
        ensures
            num_pluses_reports(*content, r@),
    {
        let mut r: Vec<Log> = Vec::new();
        match content {
            Content::Command { loc, pluses, invocation_loc, .. } => {
                if *pluses >= 2 {
                    r.push(NumPluses::message(loc, invocation_loc));
                }
            },
            Content::Sugar(Sugar::Heading { pluses, loc, invocation_loc, .. }) => {
                if *pluses >= 2 {
                    r.push(NumPluses::message(loc, invocation_loc));
                }
            },
            _ => {},
        }
        r
    }
}

/// Warns of glue that does not join two fragments of text.
pub struct SpiltGlue {}

impl SpiltGlue {
    pub fn new() -> (l: SpiltGlue) {
        SpiltGlue {}
    }

    /// A warning where `content` is glue with a space or line end beside it.
    pub fn analyse(&self, content: &Content) -> (r: Vec<Log>)
        ensures
            spilt_glue_reports(*content, r@),
    {
        let mut r: Vec<Log> = Vec::new();
        match content {
            Content::SpiltGlue { loc, .. } => {
                r.push(Log::warn("glue does not connect text fragments").src(Src::new(loc).annotate(Note::info(loc, "found here"))));
            },
            _ => {},
        }
        r
    }
}

/// Warns of empty attribute lists.
pub struct EmptyAttrs {}

impl EmptyAttrs {
    pub fn new() -> (l: EmptyAttrs) {
        EmptyAttrs {}
    }

    /// A warning where `content` is a command with an empty attribute list.
    pub fn analyse(&self, content: &Content) -> (r: Vec<Log>)
        ensures
            empty_attrs_reports(*content, r@),
    {
        let mut r: Vec<Log> = Vec::new();
        match content {
            Content::Command { loc, attrs: Some(attrs), .. } => {
                if attrs.attrs.len() == 0 {
                    let at = match &attrs.loc {
                        Some(l) => l.duplicate(),
                        None => loc.duplicate(),
                    };
                    r.push(Log::warn("empty attributes").src(Src::new(loc).annotate(Note::info(&at, "found here"))));
                }
            },
            _ => {},
        }
        r
    }
}

/// Where an attribute was written, or `fallback` where unknown.
pub open spec fn attr_loc(a: Attr, fallback: Location) -> Location {
    match a {
        Attr::Named { loc: Some(l), .. } => l,
        Attr::Unnamed { loc: Some(l), .. } => l,
        _ => fallback,
    }
}

/// Where an attribute was written, or the whole command where unknown.
fn attr_loc_or(a: &Attr, fallback: &Location) -> (l: Location)
    ensures
        l == attr_loc(*a, *fallback),
{
    match a.loc() {
        Some(l) => l.duplicate(),
        None => fallback.duplicate(),
    }
}

/// Whether an attribute is named.
pub open spec fn is_named(a: Attr) -> bool {
    a is Named
}

/// The number of unnamed attributes that come after some named one.
pub open spec fn misplaced(xs: Seq<Attr>) -> nat
    decreases xs.len(),
{
    if xs.len() == 0 {
        0
    } else {
        misplaced(xs.drop_last()) + if !is_named(xs.last()) && exists|i: int|
            0 <= i < xs.len() - 1 && #[trigger] is_named(xs[i]) {
            1nat
        } else {
            0nat
        }
    }
}

/// Whether attribute `k` of `xs` is unnamed and comes after a named one.
pub open spec fn is_misplaced(xs: Seq<Attr>, k: int) -> bool {
    !is_named(xs[k]) && exists|i: int| 0 <= i < k && #[trigger] is_named(xs[i])
}

/// `l` shows the span `loc` with one warning, "found here", about the
/// span `at`, and helps with `help`.
pub open spec fn shows_found(l: Log, loc: Location, at: Location, help: Seq<char>) -> bool {
    &&& shows_one(l, loc, at, Level::Warning, "found here"@)
    &&& l.help matches Some(h) && h@ == help
    &&& l.id is None && l.note is None && !l.explainable
}

/// `l` is warning `j` of those on unnamed attributes after named ones in
/// `c`: it points at the attribute that is the one after `j` such.
pub open spec fn ordering_log(c: Content, j: int, l: Log) -> bool {
    c matches Content::Command { loc, attrs: Some(a), .. } && exists|k: int|
        0 <= k < a.attrs@.len() && is_misplaced(a.attrs@, k) && misplaced(a.attrs@.take(k)) == j && shows_found(
            l,
            loc,
            attr_loc(a.attrs@[k], loc),
            "place unnamed attributes before named ones"@,
        )
}

/// Warns of unnamed attributes after named ones.
pub struct AttrOrdering {}

impl AttrOrdering {
    pub fn new() -> (l: AttrOrdering) {
        AttrOrdering {}
    }

    /// One warning for each unnamed attribute that comes after a named one.
    pub fn analyse(&self, content: &Content) -> (r: Vec<Log>)
        ensures
            attr_ordering_reports(*content, r@),
    {
        let mut r: Vec<Log> = Vec::new();
        match content {
            Content::Command { loc, attrs: Some(attrs), .. } => {
                let xs = &attrs.attrs;
                let mut named_seen = false;
                let mut i: usize = 0;
                let ghost mut ks: Seq<int> = Seq::empty();
                proof {
                    assert(misplaced(xs@.take(0)) == 0);
                }
                while i < xs.len()
                    invariant
                        i <= xs@.len(),
                        named_seen == exists|k: int| 0 <= k < i && #[trigger] is_named(xs@[k]),
                        r@.len() == misplaced(xs@.take(i as int)),
                        forall|j: int| 0 <= j < r@.len() ==> (#[trigger] r@[j]).msg@
                            == "unnamed attribute after named attributes"@ && r@[j].msg_type == Level::Warning,
                        ks.len() == r@.len(),
                        forall|j: int| 0 <= j < r@.len() ==> {
                            &&& 0 <= #[trigger] ks[j] < i
                            &&& is_misplaced(xs@, ks[j])
                            &&& misplaced(xs@.take(ks[j])) == j
                            &&& shows_found(r@[j], *loc, attr_loc(xs@[ks[j]], *loc), "place unnamed attributes before named ones"@)
                        },
                    decreases xs@.len() - i,
                {
                    let ghost t = xs@.take(i + 1);
                    proof {
                        assert(t.drop_last() =~= xs@.take(i as int));
                        assert(t.last() == xs@[i as int]);
                        assert((exists|k: int| 0 <= k < t.len() - 1 && #[trigger] is_named(t[k])) == named_seen) by {
                            if named_seen {
                                let k = choose|k: int| 0 <= k < i && #[trigger] is_named(xs@[k]);
                                assert(t[k] == xs@[k]);
                            }
                            if exists|k: int| 0 <= k < t.len() - 1 && #[trigger] is_named(t[k]) {
                                let k = choose|k: int| 0 <= k < t.len() - 1 && #[trigger] is_named(t[k]);
                                assert(t[k] == xs@[k]);
                            }
                        }
                    }
                    match &xs[i] {
                        Attr::Named { .. } => {
                            named_seen = true;
                        },
                        Attr::Unnamed { .. } => {
                            if named_seen {
                                let at = attr_loc_or(&xs[i], loc);
                                let log = Log::warn("unnamed attribute after named attributes").src(
                                    Src::new(loc).annotate(Note::warn(&at, "found here")),
                                ).help("place unnamed attributes before named ones");
                                let ghost before = r@;
                                r.push(log);
                                proof {
                                    assert(is_misplaced(xs@, i as int));
                                    assert forall|j: int| 0 <= j < before.len() implies r@[j] == before[j] by {}
                                    ks = ks.push(i as int);
                                }
                            }
                        },
                    }
                    proof {
                        if is_named(xs@[i as int]) {
                            assert(exists|k: int| 0 <= k < i + 1 && #[trigger] is_named(xs@[k]));
                        } else if exists|k: int| 0 <= k < i + 1 && #[trigger] is_named(xs@[k]) {
                            let k = choose|k: int| 0 <= k < i + 1 && #[trigger] is_named(xs@[k]);
                            assert(k < i);
                        }
                    }
                    i = i + 1;
                }
                proof {
                    assert(xs@.take(xs@.len() as int) =~= xs@);
                    assert forall|j: int| 0 <= j < r@.len() implies ordering_log(*content, j, #[trigger] r@[j]) by {
                        let k = ks[j];
                        assert(0 <= k < xs@.len() && is_misplaced(xs@, k) && misplaced(xs@.take(k)) == j);
                    }
                }
            },
            _ => {},
        }
        r
    }
}

/// The number of attributes of `xs` whose name an earlier one has.
pub open spec fn duplicates(xs: Seq<Attr>) -> nat
    decreases xs.len(),
{
    if xs.len() == 0 {
        0
    } else {
        duplicates(xs.drop_last()) + if exists|i: int|
            0 <= i < xs.len() - 1 && attr_name(#[trigger] xs[i]) == attr_name(xs.last()) {
            1nat
        } else {
            0nat
        }
    }
}

/// Whether attribute `f` of `xs` is the first with the name of attribute
/// `k`, which comes after it.
pub open spec fn first_same_name(xs: Seq<Attr>, f: int, k: int) -> bool {
    &&& 0 <= f < k < xs.len()
    &&& attr_name(xs[f]) == attr_name(xs[k])
    &&& forall|q: int| 0 <= q < f ==> attr_name(#[trigger] xs[q]) != attr_name(xs[k])
}

/// `l` shows the span `loc` with a warning on the attribute `here` and a
/// remark on the attribute `there`, both named `name`.
pub open spec fn shows_duplicate(l: Log, loc: Location, here: Location, there: Location, name: Seq<char>) -> bool {
    &&& l.srcs@.len() == 1
    &&& l.srcs@[0].loc == loc
    &&& l.srcs@[0].annotations@.len() == 2
    &&& l.srcs@[0].annotations@[0].loc == here
    &&& l.srcs@[0].annotations@[0].msg_type == Level::Warning
    &&& l.srcs@[0].annotations@[0].msg@ == "found duplicate '"@ + name + "' here"@
    &&& l.srcs@[0].annotations@[1].loc == there
    &&& l.srcs@[0].annotations@[1].msg_type == Level::Info
    &&& l.srcs@[0].annotations@[1].msg@ == "'"@ + name + "' first defined here"@
    &&& l.help matches Some(h) && h@ == "remove multiple occurrences of the same attribute"@
    &&& l.id is None && l.note is None && !l.explainable
}

/// `l` is warning `j` of those on attributes given twice in `c`: it points
/// at the attribute that is the one after `j` such, and at the first with
/// its name.
pub open spec fn duplicate_log(c: Content, j: int, l: Log) -> bool {
    c matches Content::Command { loc, attrs: Some(a), .. } && exists|f: int, k: int|
        #![trigger first_same_name(a.attrs@, f, k)]
        first_same_name(a.attrs@, f, k) && duplicates(a.attrs@.take(k)) == j && shows_duplicate(
            l,
            loc,
            attr_loc(a.attrs@[k], loc),
            attr_loc(a.attrs@[f], loc),
            attr_name(a.attrs@[k]),
        )
}

/// Warns of attributes given twice.
pub struct DuplicateAttrs {}

impl DuplicateAttrs {
    pub fn new() -> (l: DuplicateAttrs) {
        DuplicateAttrs {}
    }

    /// One warning for each attribute whose name an earlier one has, which
    /// points at it and at the first with that name.
    pub fn analyse(&self, content: &Content) -> (r: Vec<Log>)
        ensures
            duplicate_attrs_reports(*content, r@),
    {
        let mut r: Vec<Log> = Vec::new();
        match content {
            Content::Command { loc, attrs: Some(attrs), .. } => {
                let xs = &attrs.attrs;
                let mut names: Vec<String> = Vec::new();
                let mut i: usize = 0;
                let ghost mut fs: Seq<int> = Seq::empty();
                let ghost mut ks: Seq<int> = Seq::empty();
                proof {
                    assert(duplicates(xs@.take(0)) == 0);
                }
                while i < xs.len()
                    invariant
                        i <= xs@.len(),
                        names@.len() == i,
                        forall|k: int| 0 <= k < i ==> (#[trigger] names@[k])@ == attr_name(xs@[k]),
                        r@.len() == duplicates(xs@.take(i as int)),
                        forall|j: int| 0 <= j < r@.len() ==> (#[trigger] r@[j]).msg@ == "duplicate attributes"@
                            && r@[j].msg_type == Level::Warning,
                        fs.len() == r@.len(),
                        ks.len() == r@.len(),
                        forall|j: int| 0 <= j < r@.len() ==> {
                            &&& #[trigger] ks[j] < i
                            &&& first_same_name(xs@, fs[j], ks[j])
                            &&& duplicates(xs@.take(ks[j])) == j
                            &&& shows_duplicate(
                                r@[j],
                                *loc,
                                attr_loc(xs@[ks[j]], *loc),
                                attr_loc(xs@[fs[j]], *loc),
                                attr_name(xs@[ks[j]]),
                            )
                        },
                    decreases xs@.len() - i,
                {
                    let name = xs[i].name();
                    let mut first: Option<usize> = None;
                    let mut k: usize = 0;
                    while k < i && first.is_none()
                        invariant
                            k <= i,
                            i < xs@.len(),
                            names@.len() == i,
                            name@ == attr_name(xs@[i as int]),
                            forall|q: int| 0 <= q < i ==> (#[trigger] names@[q])@ == attr_name(xs@[q]),
                            first is None ==> forall|q: int| 0 <= q < k ==> attr_name(xs@[q]) != name@,
                            first matches Some(f) ==> f < i && attr_name(xs@[f as int]) == name@ && forall|q: int|
                                0 <= q < f ==> attr_name(xs@[q]) != name@,
                        decreases i - k,
                    {
                        if names[k] == name {
                            first = Some(k);
                        }
                        k = k + 1;
                    }
                    let ghost t = xs@.take(i + 1);
                    proof {
                        assert(t.drop_last() =~= xs@.take(i as int));
                        assert(t.last() == xs@[i as int]);
                        if let Some(f) = first {
                            assert(t[f as int] == xs@[f as int]);
                            assert(exists|q: int| 0 <= q < t.len() - 1 && attr_name(#[trigger] t[q]) == attr_name(t.last()));
                        } else {
                            assert(!exists|q: int| 0 <= q < t.len() - 1 && attr_name(#[trigger] t[q]) == attr_name(t.last())) by {
                                if exists|q: int| 0 <= q < t.len() - 1 && attr_name(#[trigger] t[q]) == attr_name(t.last()) {
                                    let q = choose|q: int| 0 <= q < t.len() - 1 && attr_name(#[trigger] t[q]) == attr_name(t.last());
                                    assert(t[q] == xs@[q]);
                                }
                            }
                        }
                    }
                    match first {
                        Some(f) => {
                            let here = attr_loc_or(&xs[i], loc);
                            let there = attr_loc_or(&xs[f], loc);
                            let found = concat(concat("found duplicate '", name.as_str()).as_str(), "' here");
                            let defined = concat(concat("'", name.as_str()).as_str(), "' first defined here");
                            let log = Log::warn("duplicate attributes").src(
                                Src::new(loc).annotate(Note::warn(&here, found.as_str())).annotate(
                                    Note::info(&there, defined.as_str()),
                                ),
                            ).help("remove multiple occurrences of the same attribute");
                            let ghost before = r@;
                            r.push(log);
                            proof {
                                assert(first_same_name(xs@, f as int, i as int));
                                assert forall|j: int| 0 <= j < before.len() implies r@[j] == before[j] by {}
                                fs = fs.push(f as int);
                                ks = ks.push(i as int);
                            }
                        },
                        None => {},
                    }
                    names.push(name);
                    i = i + 1;
                }
                proof {
                    assert(xs@.take(xs@.len() as int) =~= xs@);
                    assert forall|j: int| 0 <= j < r@.len() implies duplicate_log(*content, j, #[trigger] r@[j]) by {
                        let k = ks[j];
                        let f = fs[j];
                        assert(first_same_name(xs@, f, k) && duplicates(xs@.take(k)) == j);
                    }
                }
            },
            _ => {},
        }
        r
    }
}

/// The pattern that conforming command names match: lowercase letters,
/// digits and dashes.
pub const CONFORMANT_NAME: &'static str = r"^[a-z0-9-]*?$";

/// Warns of command names that are not lowercase with dashes.
pub struct CommandNaming {}

impl CommandNaming {
    pub fn new() -> (l: CommandNaming) {
        CommandNaming {}
    }

    /// A warning where `content` is a command whose name does not match
    /// `CONFORMANT_NAME`.
    pub fn analyse(&self, content: &Content) -> (r: Vec<Log>)
        ensures
            command_naming_reports(*content, r@),
    {
        let mut r: Vec<Log> = Vec::new();
        match content {
            Content::Command { name, loc, invocation_loc, .. } => {
                match is_match(CONFORMANT_NAME, name.as_str()) {
                    Some(false) => {
                        let msg = concat("commands should be lowercase with dashes: got .", name.as_str());
                        let lower = crate::text::lowercase(name.as_str());
                        let hint = concat("try changing this to .", lower.as_str());
                        let log = Log::warn(msg.as_str()).src(Src::new(loc).annotate(Note::help(invocation_loc, hint.as_str())))
                            .note("command-names are case-insensitive but lowercase reads more fluidly");
                        r.push(log);
                    },
                    _ => {},
                }
            },
            _ => {},
        }
        r
    }
}

/// The help that suggests sugar in place of a command with `pluses` plus
/// marks.
pub open spec fn sugar_help(s: SugarType, pluses: usize) -> Seq<char> {
    match s {
        SugarType::Prefix(_, Some(pre)) if pluses > 0 => "try using ‘"@ + pre@ + "’ instead"@,
        SugarType::Prefix(pre, _) => "try using ‘"@ + pre@ + "’ instead"@,
        SugarType::Delimiters(d) => "try surrounding argument in ‘"@ + d@ + "’ instead"@,
    }
}

/// Whether a command takes exactly one argument that sugar can hold: one
/// inline argument, or a remainder one, or one trailer argument of a
/// single paragraph with a single part.
pub open spec fn sugarable_args(c: Content) -> bool {
    match c {
        Content::Command { inline_args, remainder_arg, trailer_args, .. } => {
            ||| inline_args@.len() == 1 && remainder_arg is None && trailer_args@.len() == 0
            ||| inline_args@.len() == 0 && remainder_arg is Some && trailer_args@.len() == 0
            ||| inline_args@.len() == 0 && remainder_arg is None && trailer_args@.len() == 1
                && trailer_args@[0]@.len() == 1 && trailer_args@[0]@[0].parts@.len() == 1
        },
        _ => false,
    }
}

/// Suggests sugar in place of commands that have some.
pub struct SugarUsage {}

impl SugarUsage {
    pub fn new() -> (l: SugarUsage) {
        SugarUsage {}
    }

    /// A suggestion where `content` is a command that has sugar and an
    /// argument that sugar can hold.
    pub fn analyse(&self, content: &Content) -> (r: Vec<Log>)
        ensures
            sugar_usage_reports(*content, r@),
    {
        let mut r: Vec<Log> = Vec::new();
        match content {
            Content::Command { name, inline_args, remainder_arg, trailer_args, loc, invocation_loc, pluses, .. } => {
                let sugar = match sugar_for_name(name.as_str()) {
                    Some(s) => s,
                    None => { return r; },
                };
                let fits = if inline_args.len() == 1 && remainder_arg.is_none() && trailer_args.len() == 0 {
                    true
                } else if inline_args.len() == 0 && remainder_arg.is_some() && trailer_args.len() == 0 {
                    true
                } else if inline_args.len() == 0 && remainder_arg.is_none() && trailer_args.len() == 1 {
                    trailer_args[0].len() == 1 && trailer_args[0][0].parts.len() == 1
                } else {
                    false
                };
                if !fits {
                    return r;
                }
                let help = match sugar {
                    SugarType::Prefix(pre, more) => {
                        let shown = match more {
                            Some(p) => if *pluses > 0 { p } else { pre },
                            None => pre,
                        };
                        concat(concat("try using ‘", shown).as_str(), "’ instead")
                    },
                    SugarType::Delimiters(d) => concat(concat("try surrounding argument in ‘", d).as_str(), "’ instead"),
                };
                let msg = concat("syntactic sugar exists for .", name.as_str());
                let log = Log::warn(msg.as_str()).src(Src::new(loc).annotate(Note::help(invocation_loc, "found here")))
                    .help(help.as_str());
                r.push(log);
                r
            },
            _ => r,
        }
    }
}

/// Whether `c` is a command with bounds on its attributes and a number of
/// them outside the bounds.
pub open spec fn num_attrs_fires(c: Content) -> bool {
    command_name(c) matches Some(n) && attr_bounds(n) matches Some((min, max)) && (attr_count(c) < min
        || attr_count(c) > max || (min == max && attr_count(c) != max))
}

/// Whether `c` is a command given more arguments than its limit.
pub open spec fn excessive_args_fires(c: Content) -> bool {
    command_name(c) matches Some(n) && arg_limit(n) matches Some(max) && arg_count(c) > max
}

/// Whether `c` is a command whose name does not match `CONFORMANT_NAME`.
pub open spec fn command_naming_fires(c: Content) -> bool {
    command_name(c) matches Some(n) && regex_is_match(CONFORMANT_NAME@, n) == Some(false)
}

/// Whether `c` is a command that has sugar and an argument that sugar can
/// hold.
pub open spec fn sugar_usage_fires(c: Content) -> bool {
    command_name(c) matches Some(n) && sugar_for(n) is Some && sugarable_args(c)
}

/// The warnings on `c`: one where `c` is a command with bounds on its
/// arguments and a number of them outside the bounds, "too many" or "too
/// few", with the number expected beside the command's name.
pub open spec fn num_args_reports(c: Content, r: Seq<Log>) -> bool {
    &&& r.len() <= 1
    &&& r.len() == 1 <==> num_args_fires(c)
    &&& r.len() == 1 ==> {
        &&& r[0].msg_type == Level::Warning
        &&& bare(r[0])
        &&& command_name(c) matches Some(n) && arg_bounds(n) matches Some((min, max)) && r[0].msg@ == (if arg_count(c) > max {
            "too many arguments passed to ."@
        } else {
            "too few arguments passed to ."@
        }) + n
    }
    &&& r.len() == 1 && arg_count(c) + 2 < usize::MAX ==> {
        c matches Content::Command { name, loc, invocation_loc, .. } && arg_bounds(name@) matches Some((min, max))
            && shows_one(
            r[0],
            loc,
            invocation_loc,
            Level::Info,
            bounds_note(min, max, arg_count(c), "argument"@, "arguments"@),
        )
    }
}

/// The warnings on `c`: one where `c` is a command with bounds on its
/// attributes and a number of them outside the bounds, with the number
/// expected beside the attribute list.
pub open spec fn num_attrs_reports(c: Content, r: Seq<Log>) -> bool {
    &&& r.len() <= 1
    &&& r.len() == 1 <==> num_attrs_fires(c)
    &&& r.len() == 1 ==> {
        &&& r[0].msg_type == Level::Warning
        &&& bare(r[0])
        &&& command_name(c) matches Some(n) && attr_bounds(n) matches Some((min, max)) && r[0].msg@ == (
        if attr_count(c) > max {
            "too many attributes passed to ."@
        } else {
            "too few attributes passed to ."@
        }) + n
        &&& c matches Content::Command { name, loc, invocation_loc, attrs, .. } && attr_bounds(name@) matches Some(
            (min, max),
        ) && shows_one(
            r[0],
            loc,
            attrs_report_loc(attrs, invocation_loc),
            Level::Info,
            bounds_note(min, max, attr_count(c), "attribute"@, "attributes"@),
        )
    }
}

/// The warnings on `c`: one where `c` is a command with a limit on its
/// arguments and more than that many of them, with the limit beside the
/// command's name.
pub open spec fn excessive_args_reports(c: Content, r: Seq<Log>) -> bool {
    &&& r.len() <= 1
    &&& r.len() == 1 <==> excessive_args_fires(c)
    &&& r.len() == 1 ==> {
        &&& r[0].msg_type == Level::Warning
        &&& bare(r[0])
        &&& command_name(c) matches Some(n) && r[0].msg@ == "too many arguments passed to ."@ + n
    }
    &&& r.len() == 1 && arg_count(c) + 2 < usize::MAX ==> {
        c matches Content::Command { name, loc, invocation_loc, .. } && arg_limit(name@) matches Some(max)
            && shows_one(
            r[0],
            loc,
            invocation_loc,
            Level::Info,
            count_text("expected at most "@, max as nat, "arguments"@, "arguments"@),
        )
    }
}

/// The warnings on `c`: one where `c` is a command or heading with two or
/// more plus marks, with help beside its name.
pub open spec fn num_pluses_reports(c: Content, r: Seq<Log>) -> bool {
    &&& r.len() == (if plus_count(c) matches Some(p) && p >= 2 { 1int } else { 0int })
    &&& r.len() == 1 ==> {
        &&& r[0].msg@ == "extra plus modifiers ignored"@
        &&& r[0].msg_type == Level::Warning
        &&& bare(r[0])
        &&& match c {
            Content::Command { loc, invocation_loc, .. } => shows_one(
                r[0],
                loc,
                invocation_loc,
                Level::Help,
                "remove all but one plus symbol"@,
            ),
            Content::Sugar(Sugar::Heading { loc, invocation_loc, .. }) => shows_one(
                r[0],
                loc,
                invocation_loc,
                Level::Help,
                "remove all but one plus symbol"@,
            ),
            _ => false,
        }
    }
}

/// The warnings on `c`: one where `c` is glue with a space or line end
/// beside it.
pub open spec fn spilt_glue_reports(c: Content, r: Seq<Log>) -> bool {
    &&& r.len() == (if c is SpiltGlue { 1int } else { 0int })
    &&& r.len() == 1 ==> {
        &&& r[0].msg@ == "glue does not connect text fragments"@
        &&& r[0].msg_type == Level::Warning
        &&& bare(r[0])
        &&& c matches Content::SpiltGlue { loc, .. } && shows_one(r[0], loc, loc, Level::Info, "found here"@)
    }
}

/// The warnings on `c`: one where `c` is a command with an empty attribute
/// list.
pub open spec fn empty_attrs_reports(c: Content, r: Seq<Log>) -> bool {
    &&& r.len() == (if c matches Content::Command { attrs: Some(a), .. } && a.attrs@.len() == 0 {
        1int
    } else {
        0int
    })
    &&& r.len() == 1 ==> {
        &&& r[0].msg@ == "empty attributes"@
        &&& r[0].msg_type == Level::Warning
        &&& bare(r[0])
        &&& c matches Content::Command { loc, attrs: Some(a), .. } && shows_one(
            r[0],
            loc,
            attrs_report_loc(Some(a), loc),
            Level::Info,
            "found here"@,
        )
    }
}

/// The warnings on `c`: one for each unnamed attribute that comes after a
/// named one, in order.
pub open spec fn attr_ordering_reports(c: Content, r: Seq<Log>) -> bool {
    &&& r.len() == (match c {
        Content::Command { attrs: Some(a), .. } => misplaced(a.attrs@) as int,
        _ => 0int,
    })
    &&& forall|i: int|
        0 <= i < r.len() ==> (#[trigger] r[i]).msg@ == "unnamed attribute after named attributes"@ && r[i].msg_type
            == Level::Warning
    &&& forall|j: int| 0 <= j < r.len() ==> ordering_log(c, j, #[trigger] r[j])
}

/// The warnings on `c`: one for each attribute whose name an earlier one
/// has, in order, which points at it and at the first with that name.
pub open spec fn duplicate_attrs_reports(c: Content, r: Seq<Log>) -> bool {
    &&& r.len() == (match c {
        Content::Command { attrs: Some(a), .. } => duplicates(a.attrs@) as int,
        _ => 0int,
    })
    &&& forall|i: int|
        0 <= i < r.len() ==> (#[trigger] r[i]).msg@ == "duplicate attributes"@ && r[i].msg_type == Level::Warning
    &&& forall|j: int| 0 <= j < r.len() ==> duplicate_log(c, j, #[trigger] r[j])
}

/// The warnings on `c`: one where `c` is a command whose name does not
/// match `CONFORMANT_NAME`, with its lower-case form suggested.
pub open spec fn command_naming_reports(c: Content, r: Seq<Log>) -> bool {
    &&& r.len() <= 1
    &&& r.len() == 1 <==> command_naming_fires(c)
    &&& r.len() == 1 ==> {
        &&& command_name(c) matches Some(n) && r[0].msg@ == "commands should be lowercase with dashes: got ."@ + n
        &&& r[0].msg_type == Level::Warning
        &&& r[0].id is None && r[0].help is None && !r[0].explainable
        &&& r[0].note matches Some(t) && t@ == "command-names are case-insensitive but lowercase reads more fluidly"@
        &&& c matches Content::Command { name, loc, invocation_loc, .. } && shows_one(
            r[0],
            loc,
            invocation_loc,
            Level::Help,
            "try changing this to ."@ + str_lowercase(name@),
        )
    }
}

/// The suggestions on `c`: one where `c` is a command that has sugar and
/// an argument that sugar can hold, with the sugar to use.
pub open spec fn sugar_usage_reports(c: Content, r: Seq<Log>) -> bool {
    &&& r.len() <= 1
    &&& r.len() == 1 <==> sugar_usage_fires(c)
    &&& r.len() == 1 ==> {
        &&& command_name(c) matches Some(n) && r[0].msg@ == "syntactic sugar exists for ."@ + n
        &&& r[0].msg_type == Level::Warning
        &&& c matches Content::Command { name, pluses, .. } && sugar_for(name@) matches Some(sugar)
            && r[0].help matches Some(h) && h@ == sugar_help(sugar, pluses)
        &&& r[0].id is None && r[0].note is None && !r[0].explainable
        &&& c matches Content::Command { loc, invocation_loc, .. } && shows_one(
            r[0],
            loc,
            invocation_loc,
            Level::Help,
            "found here"@,
        )
    }
}

} // verus!
