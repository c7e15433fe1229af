//! Command-line arguments: the values the program is asked to work with,
//! and the rules by which each is read from its text.
pub mod memory;
pub mod search_path;
pub mod commands;

use vstd::prelude::*;
use crate::lint::names::same_text;
use crate::text::{
    byte_offset, char_utf8_width, lemma_byte_offset_monotonic, lemma_byte_offset_step, string_from_chars,
    string_of, str_chars,
};

pub use memory::MemoryLimit;
pub use search_path::SearchPath;
pub use commands::{Args, BuildCmd, Command, ExtensionArgs, FormatCmd, InputArgs, LintCmd, ListCmd, OutputArgs, StyleArgs};

verus! {

/// What kind of problem an argument had.
#[derive(Copy, Clone, Debug, PartialEq, Eq, Structural)]
pub enum ArgErrorKind {
    /// The value given is not one the argument takes.
    InvalidValue,
    /// The argument was given more often than it may be.
    TooManyValues,
}

/// A problem with a command-line argument, and what to tell the user.
#[derive(Debug)]
pub struct ArgError {
    pub kind: ArgErrorKind,
    pub message: String,
}

impl ArgError {
    /// A problem of kind `kind` described by `message`.
    pub fn new(kind: ArgErrorKind, message: &str) -> (e: ArgError)
        ensures
            e.kind == kind,
            e.message@ == message@,
    {
        ArgError { kind, message: string_of(message) }
    }
}

/// What the user is told for an empty file path.
pub const FILE_PATH_CANNOT_BE_EMPTY: &'static str = "file path cannot be empty";

/// Where output goes, before it is inferred from where input comes from.
#[derive(Clone, Debug, PartialEq, Eq)]
pub enum UninferredArgPath {
    /// Follow the input.
    Infer,
    /// The standard streams.
    Stdio,
    /// A file.
    Path(String),
}

/// Where input comes from, or output goes.
#[derive(Clone, Debug, PartialEq, Eq)]
pub enum ArgPath {
    /// The standard streams.
    Stdio,
    /// A file.
    Path(String),
}

impl UninferredArgPath {
    /// Reads an output path: `-` is the standard streams, `??` follows the
    /// input, anything else but the empty text is a file.
    pub fn try_from(raw: &str) -> (r: Result<UninferredArgPath, ArgError>)
        ensures
            raw@.len() == 0 <==> r is Err,
            r matches Err(e) ==> e.kind == ArgErrorKind::InvalidValue && e.message@
                == FILE_PATH_CANNOT_BE_EMPTY@,
            raw@ == "-"@ ==> r == Ok::<UninferredArgPath, ArgError>(UninferredArgPath::Stdio),
            raw@ == "??"@ ==> r == Ok::<UninferredArgPath, ArgError>(UninferredArgPath::Infer),
            raw@.len() > 0 && raw@ != "-"@ && raw@ != "??"@ ==> (r matches Ok(UninferredArgPath::Path(p))
                && p@ == raw@),
    {
        proof {
            reveal_strlit("");
            reveal_strlit("-");
            assert(raw@.len() == 0 ==> raw@ =~= ""@);
            reveal_strlit("??");
        }
        if same_text(raw, "") {
            Err(ArgError::new(ArgErrorKind::InvalidValue, FILE_PATH_CANNOT_BE_EMPTY))
        } else if same_text(raw, "-") {
            Ok(UninferredArgPath::Stdio)
        } else if same_text(raw, "??") {
            Ok(UninferredArgPath::Infer)
        } else {
            Ok(UninferredArgPath::Path(string_of(raw)))
        }
    }

    /// The path this stands for once the input is known to be `other`.
    pub fn infer_from(&self, other: &ArgPath) -> (r: ArgPath)
        ensures
            r@ == (match *self {
                UninferredArgPath::Infer => other@,
                UninferredArgPath::Stdio => ArgPathView::Stdio,
                UninferredArgPath::Path(p) => ArgPathView::Path(p@),
            }),
    {
        match self {
            UninferredArgPath::Infer => match other {
                ArgPath::Stdio => ArgPath::Stdio,
                ArgPath::Path(s) => ArgPath::Path(s.clone()),
            },
            UninferredArgPath::Stdio => ArgPath::Stdio,
            UninferredArgPath::Path(s) => ArgPath::Path(s.clone()),
        }
    }

    /// The path written out: `??`, `stdio`, or the file's path.
    pub fn to_string(&self) -> (s: String)
        ensures
            s@ == (match *self {
                UninferredArgPath::Infer => "??"@,
                UninferredArgPath::Stdio => "stdio"@,
                UninferredArgPath::Path(p) => p@,
            }),
    {
        match self {
            UninferredArgPath::Infer => string_of("??"),
            UninferredArgPath::Stdio => string_of("stdio"),
            UninferredArgPath::Path(p) => p.clone(),
        }
    }
}

impl Default for UninferredArgPath {
    fn default() -> (r: UninferredArgPath)
        ensures
            r == UninferredArgPath::Infer,
    {
        UninferredArgPath::Infer
    }
}

/// An input or output path, its file's path taken as text.
pub enum ArgPathView {
    Stdio,
    Path(Seq<char>),
}

impl View for ArgPath {
    type V = ArgPathView;

    open spec fn view(&self) -> ArgPathView {
        match *self {
            ArgPath::Stdio => ArgPathView::Stdio,
            ArgPath::Path(p) => ArgPathView::Path(p@),
        }
    }
}

impl ArgPath {
    /// Reads an input path: `-` is the standard streams, anything else but
    /// the empty text is a file.
    pub fn try_from(raw: &str) -> (r: Result<ArgPath, ArgError>)
        ensures
            raw@.len() == 0 <==> r is Err,
            r matches Err(e) ==> e.kind == ArgErrorKind::InvalidValue && e.message@
                == FILE_PATH_CANNOT_BE_EMPTY@,
            r matches Ok(p) ==> p@ == (if raw@ == "-"@ {
                ArgPathView::Stdio
            } else {
                ArgPathView::Path(raw@)
            }),
    {
        proof {
            reveal_strlit("");
            reveal_strlit("-");
            assert(raw@.len() == 0 ==> raw@ =~= ""@);
        }
        if same_text(raw, "") {
            Err(ArgError::new(ArgErrorKind::InvalidValue, FILE_PATH_CANNOT_BE_EMPTY))
        } else if same_text(raw, "-") {
            Ok(ArgPath::Stdio)
        } else {
            Ok(ArgPath::Path(string_of(raw)))
        }
    }

    /// The path written out: `-` for the standard streams, else the file's
    /// path.
    pub fn to_string(&self) -> (s: String)
        ensures
            s@ == (match self@ {
                ArgPathView::Stdio => "-"@,
                ArgPathView::Path(p) => p,
            }),
    {
        match self {
            ArgPath::Stdio => string_of("-"),
            ArgPath::Path(p) => p.clone(),
        }
    }
}

impl Default for ArgPath {
    /// The file `main`.
    fn default() -> (r: ArgPath)
        ensures
            r@ == ArgPathView::Path("main"@),
    {
        ArgPath::Path(string_of("main"))
    }
}

/// What to list.
#[derive(Copy, Clone, Debug, PartialEq, Eq, Structural)]
pub enum RequestedInfo {
    OutputFormats,
    OutputExtensions,
}

/// How much the program says.
#[derive(Copy, Clone, Debug, PartialEq, Eq, Structural)]
pub enum Verbosity {
    /// Errors and warnings.
    Terse,
    /// More about what is going on.
    Verbose,
    /// Debugging information.
    Debug,
}

impl Verbosity {
    /// The verbosity for `ctr` repetitions of the verbosity flag: at most
    /// two are allowed.
    pub fn try_from(ctr: u8) -> (r: Result<Verbosity, ArgError>)
        ensures
            ctr == 0 ==> r == Ok::<Verbosity, ArgError>(Verbosity::Terse),
            ctr == 1 ==> r == Ok::<Verbosity, ArgError>(Verbosity::Verbose),
            ctr == 2 ==> r == Ok::<Verbosity, ArgError>(Verbosity::Debug),
            ctr > 2 ==> (r matches Err(e) && e.kind == ArgErrorKind::TooManyValues && e.message@
                == "too verbose"@),
    {
        match ctr {
            0 => Ok(Verbosity::Terse),
            1 => Ok(Verbosity::Verbose),
            2 => Ok(Verbosity::Debug),
            _ => Err(ArgError::new(ArgErrorKind::TooManyValues, "too verbose")),
        }
    }
}

impl Default for Verbosity {
    fn default() -> (r: Verbosity)
        ensures
            r == Verbosity::Terse,
    {
        Verbosity::Terse
    }
}

/// How far extensions may reach outside.
#[derive(Copy, Clone, Debug, PartialEq, Eq, Structural)]
pub enum SandboxLevel {
    /// No restrictions.
    Unrestricted,
    /// No new processes, no files outside the working directory.
    Standard,
    /// As `Standard`, and no files at all.
    Strict,
}

impl Default for SandboxLevel {
    fn default() -> (r: SandboxLevel)
        ensures
            r == SandboxLevel::Standard,
    {
        SandboxLevel::Standard
    }
}

/// Whether to colour messages.
#[derive(Copy, Clone, Debug, PartialEq, Eq, Structural)]
pub enum ColouriseOutput {
    Never,
    Auto,
    Always,
}

impl Default for ColouriseOutput {
    fn default() -> (r: ColouriseOutput)
        ensures
            r == ColouriseOutput::Auto,
    {
        ColouriseOutput::Auto
    }
}

/// Asks `supports_color::on(Stream::Stderr)` whether the standard error
/// stream takes colour, and hands back its `has_basic` field. What comes back
/// depends on the terminal and the environment, so nothing is claimed of it.
#[verifier::external_body]
fn stderr_colour_support() -> (r: Option<bool>) {
    supports_color::on(supports_color::Stream::Stderr).map(|s| s.has_basic)
}

/// Whether to colour, given the user's `hint` and what the terminal was
/// found to support (`None` where nothing was found).
pub fn colour_wanted(hint: ColouriseOutput, support: Option<bool>) -> (r: bool)
    ensures
        r == match hint {
            ColouriseOutput::Always => true,
            ColouriseOutput::Never => false,
            ColouriseOutput::Auto => support == Some(true),
        },
{
    match hint {
        ColouriseOutput::Always => true,
        ColouriseOutput::Auto => match support {
            Some(basic) => basic,
            None => false,
        },
        ColouriseOutput::Never => false,
    }
}

impl ColouriseOutput {
    /// Whether to colour messages on the standard error stream: always,
    /// never, or where the terminal supports basic colour.
    pub fn into_bool(self) -> (r: bool)
        ensures
            self == ColouriseOutput::Always ==> r,
            self == ColouriseOutput::Never ==> !r,
    {
        match self {
            ColouriseOutput::Auto => colour_wanted(self, stderr_colour_support()),
            _ => colour_wanted(self, None),
        }
    }
}

/// A variable passed to extensions, written `name=value`.
#[derive(Clone, Debug, PartialEq, Eq)]
pub struct ExtArg {
    raw: String,
    eq_idx: usize,
}

/// Where the first `=` of `s` is.
pub open spec fn first_eq(s: Seq<char>) -> Option<int> {
    if exists|i: int| 0 <= i < s.len() && s[i] == '=' {
        Some(choose|i: int| 0 <= i < s.len() && s[i] == '=' && forall|j: int| 0 <= j < i ==> s[j] != '=')
    } else {
        None
    }
}

/// The number of characters of `s` whose UTF-8 form takes up the first `b`
/// bytes, where `b` falls between two characters.
pub open spec fn chars_in_bytes(s: Seq<char>, b: int) -> Option<int> {
    if exists|k: int| 0 <= k <= s.len() && byte_offset(s, k) == b {
        Some(choose|k: int| 0 <= k <= s.len() && byte_offset(s, k) == b)
    } else {
        None
    }
}

impl ExtArg {
    /// The text as given.
    pub closed spec fn raw(self) -> Seq<char> {
        self.raw@
    }

    /// The position of the first `=`, counted in characters.
    pub closed spec fn eq_index(self) -> nat {
        self.eq_idx as nat
    }

    /// Well formed: the position is that of the first `=`, which has at least
    /// one character before it.
    pub closed spec fn wf(self) -> bool {
        &&& 0 < self.eq_idx < self.raw@.len()
        &&& self.raw@[self.eq_idx as int] == '='
        &&& forall|j: int| 0 <= j < self.eq_idx ==> self.raw@[j] != '='
    }

    /// Reads `name=value`: refused where there is no `=`, or nothing before
    /// the first.
    pub fn try_from(raw: String) -> (r: Result<ExtArg, ArgError>)
        ensures
            first_eq(raw@) is None ==> (r matches Err(e) && e.kind == ArgErrorKind::InvalidValue && e.message@
                == "need a value"@),
            first_eq(raw@) == Some(0int) ==> (r matches Err(e) && e.kind == ArgErrorKind::InvalidValue
                && e.message@ == "need argument name"@),
            first_eq(raw@) matches Some(i) ==> (i > 0 ==> (r matches Ok(a) && a.wf() && a.raw() == raw@
                && a.eq_index() == i)),
    {
        let cs = str_chars(raw.as_str());
        let mut i: usize = 0;
        while i < cs.len()
            invariant
                cs@ == raw@,
                i <= cs@.len(),
                forall|j: int| 0 <= j < i ==> cs@[j] != '=',
            decreases cs@.len() - i,
        {
            if cs[i] == '=' {
                proof {
                    let f = choose|k: int| 0 <= k < raw@.len() && raw@[k] == '=' && forall|j: int| 0 <= j < k ==> raw@[j] != '=';
                    assert(raw@[i as int] == '=');
                    assert(f == i) by {
                        if f < i {
                            assert(raw@[f] != '=');
                        }
                        if f > i {
                            assert(raw@[i as int] != '=');
                        }
                    }
                }
                if i == 0 {
                    return Err(ArgError::new(ArgErrorKind::InvalidValue, "need argument name"));
                }
                return Ok(ExtArg { raw, eq_idx: i });
            }
            i = i + 1;
        }
        Err(ArgError::new(ArgErrorKind::InvalidValue, "need a value"))
    }

    /// The text before the first `=`, taken as its first `eq_index()`
    /// bytes: where the name holds characters beyond ASCII, those bytes are
    /// not the name, and they must end between two characters, as slicing
    /// the text there requires.
    pub fn name(&self) -> (r: String)
        requires
            self.wf(),
            chars_in_bytes(self.raw(), self.eq_index() as int) is Some,
        ensures
            r@ == self.raw().take(chars_in_bytes(self.raw(), self.eq_index() as int)->0),
    {
        let cs = str_chars(self.raw.as_str());
        let k = chars_up_to_byte(&cs, self.eq_idx);
        string_from_chars(crate::emblem_core::parser::location::slice_range(&cs, 0, k))
    }

    /// The text after the byte just past `eq_index()` bytes; as for the
    /// name, the case where that byte falls inside a character is left out.
    pub fn value(&self) -> (r: String)
        requires
            self.wf(),
            chars_in_bytes(self.raw(), self.eq_index() + 1int) is Some,
        ensures
            r@ == self.raw().skip(chars_in_bytes(self.raw(), self.eq_index() + 1int)->0),
    {
        let cs = str_chars(self.raw.as_str());
        let k = chars_up_to_byte(&cs, self.eq_idx + 1);
        string_from_chars(crate::emblem_core::parser::location::slice_range(&cs, k, cs.len()))
    }
}

/// The number of characters of `cs` that take up the first `b` bytes.
fn chars_up_to_byte(cs: &Vec<char>, b: usize) -> (k: usize)
    requires
        chars_in_bytes(cs@, b as int) is Some,
    ensures
        k <= cs@.len(),
        k == chars_in_bytes(cs@, b as int)->0,
{
    let ghost want = chars_in_bytes(cs@, b as int)->0;
    let n = cs.len();
    let mut k: usize = 0;
    let mut total: usize = 0;
    assert(cs@.take(0) =~= Seq::<char>::empty());
    while total < b
        invariant
            n == cs@.len(),
            0 <= want <= cs@.len(),
            byte_offset(cs@, want) == b,
            k <= want,
            total == byte_offset(cs@, k as int),
            total <= b,
        decreases want - k,
    {
        proof {
            if k == want {
                assert(false);
            }
            lemma_byte_offset_step(cs@, k as int);
            lemma_byte_offset_monotonic(cs@, k + 1, want);
        }
        total = total + char_utf8_width(cs[k]);
        k = k + 1;
    }
    proof {
        if k < want {
            lemma_byte_offset_monotonic(cs@, k as int, want);
        }
    }
    k
}

} // verus!
