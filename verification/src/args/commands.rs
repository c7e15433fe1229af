//! What the program is asked to do, with the arguments of each command.
use vstd::prelude::*;
use crate::args::{
    ArgError, ArgPath, ArgPathView, ColouriseOutput, ExtArg, MemoryLimit, RequestedInfo, SandboxLevel,
    SearchPath, UninferredArgPath, Verbosity,
};

verus! {

/// The arguments the program was given.
#[derive(Debug)]
pub struct Args {
    /// What to do.
    pub command: Command,
    /// Whether to colour messages.
    pub colour: bool,
    /// Whether warnings are fatal.
    pub fatal_warnings: bool,
    /// How much to say.
    pub verbosity: Verbosity,
}

/// What the program does this time.
#[derive(Clone, Debug, PartialEq, Eq)]
pub enum Command {
    /// Build a document.
    Build(BuildCmd),
    /// Fix the formatting of a document.
    Format(FormatCmd),
    /// Check a document for likely mistakes.
    Lint(LintCmd),
    /// Print information and stop.
    List(ListCmd),
}

/// The arguments of the build command.
#[derive(Clone, Debug, PartialEq, Eq)]
pub struct BuildCmd {
    pub input: InputArgs,
    pub output: OutputArgs,
    pub extensions: ExtensionArgs,
    pub style: StyleArgs,
}

/// The arguments of the format command.
#[derive(Clone, Debug, PartialEq, Eq)]
pub struct FormatCmd {
    pub input: InputArgs,
}

/// The arguments of the lint command.
#[derive(Clone, Debug, PartialEq, Eq)]
pub struct LintCmd {
    pub input: InputArgs,
    pub extensions: ExtensionArgs,
}

/// The arguments of the list command.
#[derive(Clone, Debug, PartialEq, Eq)]
pub struct ListCmd {
    /// What to list.
    pub what: RequestedInfo,
    pub extensions: ExtensionArgs,
}

/// Where the document comes from.
#[derive(Clone, Debug, PartialEq, Eq)]
pub struct InputArgs {
    /// The document.
    pub file: ArgPath,
}

/// Where output goes, and in what form.
#[derive(Clone, Debug, PartialEq, Eq)]
pub struct OutputArgs {
    /// Where output goes.
    pub stem: UninferredArgPath,
    /// The output format, where it is not the one detected.
    pub driver: Option<String>,
}

/// What the extensions get and may do.
#[derive(Clone, Debug, PartialEq, Eq)]
pub struct ExtensionArgs {
    /// Variables for the extensions.
    pub args: Vec<ExtArg>,
    /// Where to look for extensions.
    pub path: SearchPath,
    /// How much memory they may use.
    pub max_mem: MemoryLimit,
    /// How far they may reach outside.
    pub sandbox: SandboxLevel,
    /// The extensions to load.
    pub list: Vec<String>,
}

/// The style of the document.
#[derive(Clone, Debug, PartialEq, Eq)]
pub struct StyleArgs {
    /// The root style sheet.
    pub name: Option<String>,
    /// Where to look for style sheets.
    pub path: SearchPath,
}

impl Default for InputArgs {
    /// The document `main`.
    fn default() -> (r: InputArgs)
        ensures
            r.file@ == ArgPathView::Path("main"@),
    {
        InputArgs { file: ArgPath::default() }
    }
}

impl Default for OutputArgs {
    /// Output that follows the input, in the detected format.
    fn default() -> (r: OutputArgs)
        ensures
            r.stem == UninferredArgPath::Infer,
            r.driver is None,
    {
        OutputArgs { stem: UninferredArgPath::default(), driver: None }
    }
}

impl Default for ExtensionArgs {
    /// No variables, no directories, no limit, the standard sandbox and no
    /// extensions.
    fn default() -> (r: ExtensionArgs)
        ensures
            r.args@.len() == 0,
            r.path.path@.len() == 0,
            r.max_mem == MemoryLimit::Unlimited,
            r.sandbox == SandboxLevel::Standard,
            r.list@.len() == 0,
    {
        ExtensionArgs {
            args: Vec::new(),
            path: SearchPath::default(),
            max_mem: MemoryLimit::default(),
            sandbox: SandboxLevel::default(),
            list: Vec::new(),
        }
    }
}

impl Default for StyleArgs {
    /// No style sheet and no directories.
    fn default() -> (r: StyleArgs)
        ensures
            r.name is None,
            r.path.path@.len() == 0,
    {
        StyleArgs { name: None, path: SearchPath::default() }
    }
}

/// The arguments of a build with nothing given.
pub open spec fn default_build(b: BuildCmd) -> bool {
    &&& b.input.file@ == ArgPathView::Path("main"@)
    &&& b.output.stem == UninferredArgPath::Infer
    &&& b.output.driver is None
    &&& b.extensions.args@.len() == 0
    &&& b.extensions.path.path@.len() == 0
    &&& b.extensions.max_mem == MemoryLimit::Unlimited
    &&& b.extensions.sandbox == SandboxLevel::Standard
    &&& b.extensions.list@.len() == 0
    &&& b.style.name is None
    &&& b.style.path.path@.len() == 0
}

impl Default for BuildCmd {
    /// A build with nothing given.
    fn default() -> (r: BuildCmd)
        ensures
            default_build(r),
    {
        BuildCmd {
            input: InputArgs::default(),
            output: OutputArgs::default(),
            extensions: ExtensionArgs::default(),
            style: StyleArgs::default(),
        }
    }
}

impl Default for Command {
    /// Building, with nothing given.
    fn default() -> (r: Command)
        ensures
            r matches Command::Build(b) && default_build(b),
    {
        Command::Build(BuildCmd::default())
    }
}

impl BuildCmd {
    /// Where output goes: where asked, or following the input.
    pub fn output_stem(&self) -> (r: ArgPath)
        ensures
            r@ == (match self.output.stem {
                UninferredArgPath::Infer => self.input.file@,
                UninferredArgPath::Stdio => ArgPathView::Stdio,
                UninferredArgPath::Path(p) => ArgPathView::Path(p@),
            }),
    {
        self.output.stem.infer_from(&self.input.file)
    }
}

impl Args {
    /// The arguments from what was read off the command line: the command
    /// (building where none was given), the colour wanted, whether warnings
    /// are fatal, and how many times the verbosity flag was given.
    pub fn from_parts(command: Option<Command>, colour: ColouriseOutput, fatal_warnings: bool, verbosity: u8) -> (r:
        Result<Args, ArgError>)
        ensures
            verbosity > 2 <==> r is Err,
            r matches Err(e) ==> e.kind == crate::args::ArgErrorKind::TooManyValues && e.message@ == "too verbose"@,
            r matches Ok(a) ==> {
                &&& (match command {
                    Some(c) => a.command == c,
                    None => a.command matches Command::Build(b) && default_build(b),
                })
                &&& (colour == ColouriseOutput::Always ==> a.colour)
                &&& (colour == ColouriseOutput::Never ==> !a.colour)
                &&& a.fatal_warnings == fatal_warnings
                &&& (verbosity == 0 ==> a.verbosity == Verbosity::Terse)
                &&& (verbosity == 1 ==> a.verbosity == Verbosity::Verbose)
                &&& (verbosity == 2 ==> a.verbosity == Verbosity::Debug)
            },
    {
        let command = match command {
            Some(c) => c,
            None => Command::default(),
        };
        let colour = colour.into_bool();
        let verbosity = match Verbosity::try_from(verbosity) {
            Ok(v) => v,
            Err(e) => {
                return Err(e);
            },
        };
        Ok(Args { command, colour, fatal_warnings, verbosity })
    }
}

} // verus!
