//! The commands that the lints know about.
use vstd::prelude::*;
use crate::lint::names::same_text;

verus! {

/// The fewest and most arguments that a command takes, for the commands
/// whose arguments are counted.
pub open spec fn arg_bounds(name: Seq<char>) -> Option<(usize, usize)> {
    if name == "toc"@ {
        Some((0, 0))
    } else if name == "bf"@ || name == "it"@ || name == "sc"@ || name == "af"@ || name == "dt"@
        || name == "tt"@ || name == "h1"@ || name == "h2"@ || name == "h3"@ || name == "h4"@
        || name == "h5"@ || name == "h6"@ {
        Some((1, 1))
    } else if name == "if"@ {
        Some((2, 3))
    } else {
        None
    }
}

/// The fewest and most arguments that the command `name` takes.
pub fn arg_bounds_of(name: &str) -> (r: Option<(usize, usize)>)
    ensures
        r == arg_bounds(name@),
{
    if same_text(name, "toc") {
        Some((0, 0))
    } else if same_text(name, "bf") || same_text(name, "it") || same_text(name, "sc") || same_text(name, "af")
        || same_text(name, "dt") || same_text(name, "tt") || same_text(name, "h1") || same_text(name, "h2")
        || same_text(name, "h3") || same_text(name, "h4") || same_text(name, "h5") || same_text(name, "h6") {
        Some((1, 1))
    } else if same_text(name, "if") {
        Some((2, 3))
    } else {
        None
    }
}

/// The fewest and most attributes that a command takes, for the commands
/// whose attributes are counted.
pub open spec fn attr_bounds(name: Seq<char>) -> Option<(usize, usize)> {
    if name == "cite"@ {
        Some((1, 1))
    } else if name == "toc"@ || name == "bf"@ || name == "it"@ || name == "sc"@ || name == "af"@
        || name == "dt"@ || name == "tt"@ || name == "h1"@ || name == "h2"@ || name == "h3"@
        || name == "h4"@ || name == "h5"@ || name == "h6"@ || name == "if"@ {
        Some((0, 0))
    } else {
        None
    }
}

/// The fewest and most attributes that the command `name` takes.
pub fn attr_bounds_of(name: &str) -> (r: Option<(usize, usize)>)
    ensures
        r == attr_bounds(name@),
{
    if same_text(name, "cite") {
        Some((1, 1))
    } else if same_text(name, "toc") || same_text(name, "bf") || same_text(name, "it") || same_text(name, "sc")
        || same_text(name, "af") || same_text(name, "dt") || same_text(name, "tt") || same_text(name, "h1")
        || same_text(name, "h2") || same_text(name, "h3") || same_text(name, "h4") || same_text(name, "h5")
        || same_text(name, "h6") || same_text(name, "if") {
        Some((0, 0))
    } else {
        None
    }
}

/// The most arguments a command takes, for the commands checked for too
/// many arguments.
pub open spec fn arg_limit(name: Seq<char>) -> Option<usize> {
    if name == "cite"@ || name == "anchor"@ || name == "ref"@ || name == "toc"@ {
        Some(0)
    } else if name == "bf"@ || name == "it"@ || name == "sc"@ || name == "af"@ || name == "dt"@
        || name == "tt"@ || name == "h1"@ || name == "h2"@ || name == "h3"@ || name == "h4"@
        || name == "h5"@ || name == "h6"@ {
        Some(1)
    } else if name == "if"@ {
        Some(3)
    } else {
        None
    }
}

/// The most arguments that the command `name` takes.
pub fn arg_limit_of(name: &str) -> (r: Option<usize>)
    ensures
        r == arg_limit(name@),
{
    if same_text(name, "cite") || same_text(name, "anchor") || same_text(name, "ref") || same_text(name, "toc") {
        Some(0)
    } else if same_text(name, "bf") || same_text(name, "it") || same_text(name, "sc") || same_text(name, "af")
        || same_text(name, "dt") || same_text(name, "tt") || same_text(name, "h1") || same_text(name, "h2")
        || same_text(name, "h3") || same_text(name, "h4") || same_text(name, "h5") || same_text(name, "h6") {
        Some(1)
    } else if same_text(name, "if") {
        Some(3)
    } else {
        None
    }
}

/// The sugar that stands for a command: a prefix, with the one to use when
/// the command has pluses, or delimiters around the argument.
#[derive(Copy, Clone, Debug)]
pub enum SugarType {
    Prefix(&'static str, Option<&'static str>),
    Delimiters(&'static str),
}

/// The sugar for the commands that have some.
pub open spec fn sugar_for(name: Seq<char>) -> Option<SugarType> {
    if name == "it"@ {
        Some(SugarType::Delimiters("_"))
    } else if name == "bf"@ {
        Some(SugarType::Delimiters("**"))
    } else if name == "tt"@ {
        Some(SugarType::Delimiters("`"))
    } else if name == "sc"@ {
        Some(SugarType::Delimiters("="))
    } else if name == "af"@ {
        Some(SugarType::Delimiters("=="))
    } else if name == "h1"@ {
        Some(SugarType::Prefix("#", Some("#+")))
    } else if name == "h2"@ {
        Some(SugarType::Prefix("##", Some("##+")))
    } else if name == "h3"@ {
        Some(SugarType::Prefix("###", Some("###+")))
    } else if name == "h4"@ {
        Some(SugarType::Prefix("####", Some("####+")))
    } else if name == "h5"@ {
        Some(SugarType::Prefix("#####", Some("#####+")))
    } else if name == "h6"@ {
        Some(SugarType::Prefix("######", Some("######+")))
    } else {
        None
    }
}

/// The sugar for the command `name`, if it has some.
pub fn sugar_for_name(name: &str) -> (r: Option<SugarType>)
    ensures
        r == sugar_for(name@),
{
    if same_text(name, "it") {
        Some(SugarType::Delimiters("_"))
    } else if same_text(name, "bf") {
        Some(SugarType::Delimiters("**"))
    } else if same_text(name, "tt") {
        Some(SugarType::Delimiters("`"))
    } else if same_text(name, "sc") {
        Some(SugarType::Delimiters("="))
    } else if same_text(name, "af") {
        Some(SugarType::Delimiters("=="))
    } else if same_text(name, "h1") {
        Some(SugarType::Prefix("#", Some("#+")))
    } else if same_text(name, "h2") {
        Some(SugarType::Prefix("##", Some("##+")))
    } else if same_text(name, "h3") {
        Some(SugarType::Prefix("###", Some("###+")))
    } else if same_text(name, "h4") {
        Some(SugarType::Prefix("####", Some("####+")))
    } else if same_text(name, "h5") {
        Some(SugarType::Prefix("#####", Some("#####+")))
    } else if same_text(name, "h6") {
        Some(SugarType::Prefix("######", Some("######+")))
    } else {
        None
    }
}

} // verus!
