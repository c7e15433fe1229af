use emblem::args::search_path::{absolute_refusal, pick_found, Probe};
use emblem::args::{
    colour_wanted, ArgErrorKind, ArgPath, Args, BuildCmd, ColouriseOutput, Command, ExtArg, MemoryLimit,
    OutputArgs, SearchPath, UninferredArgPath, Verbosity,
};

fn dirs(ds: &[&str]) -> Vec<String> {
    ds.iter().map(|d| d.to_string()).collect()
}

#[test]
fn try_from() {
    assert_eq!(UninferredArgPath::try_from("foo").unwrap(), UninferredArgPath::Path("foo".to_string()));
}

#[test]
fn infer_from() {
    let resolved_path = ArgPath::try_from("main").unwrap();
    let resolved_stdio = ArgPath::Stdio;

    assert_eq!(UninferredArgPath::Infer.infer_from(&resolved_path), resolved_path.clone());
    assert_eq!(UninferredArgPath::Infer.infer_from(&resolved_stdio), ArgPath::Stdio);
    assert_eq!(UninferredArgPath::Stdio.infer_from(&resolved_path), ArgPath::Stdio);
    assert_eq!(UninferredArgPath::Stdio.infer_from(&resolved_stdio), ArgPath::Stdio);
    assert_eq!(
        UninferredArgPath::try_from("Tottington Hall").ok().unwrap().infer_from(&resolved_path),
        ArgPath::try_from("Tottington Hall").unwrap()
    );
    assert_eq!(
        UninferredArgPath::try_from("Tottington Hall").ok().unwrap().infer_from(&resolved_stdio),
        ArgPath::try_from("Tottington Hall").unwrap()
    );
}

#[test]
fn search_path_from() {
    assert_eq!(SearchPath::from("foo:bar::baz"), SearchPath { path: dirs(&["foo", "bar", "baz"]) });
    assert_eq!(SearchPath::from("foo:bar::baz".to_owned().as_str()), SearchPath { path: dirs(&["foo", "bar", "baz"]) });
    assert_eq!(SearchPath::from_dirs(dirs(&["foo", "bar", "baz"])), SearchPath { path: dirs(&["foo", "bar", "baz"]) });
}

#[test]
fn to_string() {
    let path = SearchPath::from("asdf:fdsa: ::q");
    assert_eq!(path.to_string(), "asdf:fdsa: :q");
}

#[test]
fn search_path_round_trip() {
    let path = SearchPath::from_dirs(dirs(&["club", "house", "a b"]));
    assert_eq!(SearchPath::from(path.to_string().as_str()), path);
    assert_eq!(SearchPath::from(":::").path.len(), 0);
    assert_eq!(SearchPath::from("").to_string(), "");
}

#[test]
fn arg_paths_refuse_empty() {
    let e = ArgPath::try_from("").unwrap_err();
    assert_eq!(e.kind, ArgErrorKind::InvalidValue);
    assert_eq!(e.message, "file path cannot be empty");
    assert!(UninferredArgPath::try_from("").is_err());
    assert_eq!(ArgPath::try_from("-").unwrap(), ArgPath::Stdio);
    assert_eq!(UninferredArgPath::try_from("-").unwrap(), UninferredArgPath::Stdio);
    assert_eq!(UninferredArgPath::try_from("??").unwrap(), UninferredArgPath::Infer);
    assert_eq!(ArgPath::Stdio.to_string(), "-");
    assert_eq!(ArgPath::default().to_string(), "main");
    assert_eq!(UninferredArgPath::Infer.to_string(), "??");
    assert_eq!(UninferredArgPath::Stdio.to_string(), "stdio");
}

#[test]
fn memory_limits() {
    assert_eq!(MemoryLimit::try_from("unlimited").unwrap(), MemoryLimit::Unlimited);
    assert_eq!(MemoryLimit::try_from("25").unwrap(), MemoryLimit::Limited(25));
    assert_eq!(MemoryLimit::try_from("25K").unwrap(), MemoryLimit::Limited(25 * 1024));
    assert_eq!(MemoryLimit::try_from("25M").unwrap(), MemoryLimit::Limited(25 * 1024 * 1024));
    assert_eq!(MemoryLimit::try_from("25G").unwrap(), MemoryLimit::Limited(25 * 1024 * 1024 * 1024));
    assert_eq!(MemoryLimit::try_from("100T").unwrap_err().message, "unrecognised unit: T");
    assert_eq!(MemoryLimit::try_from("").unwrap_err().message, "need amount");
    assert_eq!(MemoryLimit::try_from("K").unwrap_err().message, "cannot parse integer from empty string");
    assert_eq!(MemoryLimit::try_from("2½").unwrap_err().message, "invalid digit found in string");
    assert_eq!(
        MemoryLimit::try_from("99999999999999999999999").unwrap_err().message,
        "number too large to fit in target type"
    );
    assert_eq!(MemoryLimit::try_from("2K5").unwrap(), MemoryLimit::Limited(25 * 1024));
    assert!(!MemoryLimit::overflows("25G"));
    assert!(MemoryLimit::overflows("18446744073709551615G"));
}

#[test]
fn verbosity_levels() {
    assert_eq!(Verbosity::try_from(0).unwrap(), Verbosity::Terse);
    assert_eq!(Verbosity::try_from(1).unwrap(), Verbosity::Verbose);
    assert_eq!(Verbosity::try_from(2).unwrap(), Verbosity::Debug);
    let e = Verbosity::try_from(3).unwrap_err();
    assert_eq!(e.kind, ArgErrorKind::TooManyValues);
    assert_eq!(e.message, "too verbose");
}

#[test]
fn colour_choice() {
    assert!(colour_wanted(ColouriseOutput::Always, None));
    assert!(!colour_wanted(ColouriseOutput::Never, Some(true)));
    assert!(colour_wanted(ColouriseOutput::Auto, Some(true)));
    assert!(!colour_wanted(ColouriseOutput::Auto, Some(false)));
    assert!(!colour_wanted(ColouriseOutput::Auto, None));
    assert!(ColouriseOutput::Always.into_bool());
    assert!(!ColouriseOutput::Never.into_bool());
}

#[test]
fn ext_args() {
    let a = ExtArg::try_from("k=v".to_string()).unwrap();
    assert_eq!(a.name(), "k");
    assert_eq!(a.value(), "v");
    let b = ExtArg::try_from("k3=".to_string()).unwrap();
    assert_eq!(b.name(), "k3");
    assert_eq!(b.value(), "");
    let c = ExtArg::try_from("k=v=w".to_string()).unwrap();
    assert_eq!(c.name(), "k");
    assert_eq!(c.value(), "v=w");
    assert_eq!(ExtArg::try_from("=v".to_string()).unwrap_err().message, "need argument name");
    assert_eq!(ExtArg::try_from("kv".to_string()).unwrap_err().message, "need a value");
}

#[test]
fn output_stems() {
    let mut build = BuildCmd::default();
    assert_eq!(build.output_stem(), ArgPath::try_from("main").unwrap());
    build.input.file = ArgPath::Stdio;
    assert_eq!(build.output_stem(), ArgPath::Stdio);
    build.output = OutputArgs { stem: UninferredArgPath::try_from("pies").unwrap(), driver: None };
    assert_eq!(build.output_stem(), ArgPath::try_from("pies").unwrap());
    build.output.stem = UninferredArgPath::Stdio;
    assert_eq!(build.output_stem(), ArgPath::Stdio);
}

#[test]
fn args_from_parts() {
    let a = Args::from_parts(None, ColouriseOutput::Never, true, 1).unwrap();
    assert_eq!(a.command, Command::default());
    assert!(!a.colour);
    assert!(a.fatal_warnings);
    assert_eq!(a.verbosity, Verbosity::Verbose);
    assert!(Args::from_parts(None, ColouriseOutput::Always, false, 3).is_err());
    let b = Args::from_parts(Some(Command::Build(BuildCmd::default())), ColouriseOutput::Always, false, 0).unwrap();
    assert!(b.colour);
    assert_eq!(b.command, Command::default());
}

/// The build command that `em build [input] [output]` stands for.
fn build_of(input: Option<&str>, output: Option<&str>) -> BuildCmd {
    let mut build = BuildCmd::default();
    if let Some(i) = input {
        build.input.file = ArgPath::try_from(i).unwrap();
    }
    if let Some(o) = output {
        build.output.stem = UninferredArgPath::try_from(o).unwrap();
    }
    build
}

#[test]
fn default() {
    assert_eq!(
        Args::from_parts(None, ColouriseOutput::Auto, false, 0).unwrap().command,
        Args::from_parts(Some(Command::Build(BuildCmd::default())), ColouriseOutput::Auto, false, 0).unwrap().command
    );
}

#[test]
fn fatal_warnings() {
    assert!(!Args::from_parts(None, ColouriseOutput::Auto, false, 0).unwrap().fatal_warnings);
    assert!(Args::from_parts(None, ColouriseOutput::Auto, true, 0).unwrap().fatal_warnings);
}

#[test]
fn verbosity() {
    assert_eq!(Args::from_parts(None, ColouriseOutput::Auto, false, 0).unwrap().verbosity, Verbosity::Terse);
    assert_eq!(Args::from_parts(None, ColouriseOutput::Auto, false, 1).unwrap().verbosity, Verbosity::Verbose);
    assert_eq!(Args::from_parts(None, ColouriseOutput::Auto, false, 2).unwrap().verbosity, Verbosity::Debug);
    assert!(Args::from_parts(None, ColouriseOutput::Auto, false, 3).is_err());
}

#[test]
fn output_stem() {
    assert_eq!(build_of(None, None).output_stem(), ArgPath::try_from("main").unwrap());
    assert_eq!(build_of(Some("-"), None).output_stem(), ArgPath::Stdio);
    assert_eq!(build_of(Some("-"), Some("pies")).output_stem(), ArgPath::try_from("pies").unwrap());
    assert_eq!(build_of(Some("_"), Some("-")).output_stem(), ArgPath::Stdio);
    assert_eq!(build_of(Some("_"), Some("pies")).output_stem(), ArgPath::try_from("pies").unwrap());
    assert_eq!(build_of(Some("-"), Some("pies")).output_stem(), ArgPath::try_from("pies").unwrap());
}

#[test]
fn max_mem() {
    assert_eq!(BuildCmd::default().extensions.max_mem, MemoryLimit::Unlimited);
    assert_eq!(MemoryLimit::try_from("25").unwrap(), MemoryLimit::Limited(25));
    assert_eq!(MemoryLimit::try_from("25K").unwrap(), MemoryLimit::Limited(25 * 1024));
    assert_eq!(MemoryLimit::try_from("25M").unwrap(), MemoryLimit::Limited(25 * 1024 * 1024));
    assert_eq!(MemoryLimit::try_from("25G").unwrap(), MemoryLimit::Limited(25 * 1024 * 1024 * 1024));
    assert!(MemoryLimit::try_from("100T").is_err());
}

#[test]
fn style_path() {
    assert_eq!(BuildCmd::default().style.path, SearchPath::from(""));
    assert_eq!(SearchPath::from("club:house"), SearchPath::from_dirs(dirs(&["club", "house"])));
}

#[test]
fn args_extension_args() {
    let args: Vec<ExtArg> =
        ["k=v", "k2=v2", "k3="].iter().map(|a| ExtArg::try_from(a.to_string()).unwrap()).collect();
    assert_eq!(args.iter().map(|a| a.name()).collect::<Vec<_>>(), vec!["k", "k2", "k3"]);
    assert_eq!(args.iter().map(|a| a.value()).collect::<Vec<_>>(), vec!["v", "v2", ""]);
    assert!(ExtArg::try_from("=v".to_string()).is_err());
}

#[test]
fn search_takes_first_place_found() {
    let miss = Probe { inside: true, is_file: false };
    let outside = Probe { inside: false, is_file: true };
    let hit = Probe { inside: true, is_file: true };
    assert_eq!(pick_found(&vec![]), None);
    assert_eq!(pick_found(&vec![miss, outside]), None);
    assert_eq!(pick_found(&vec![miss, outside, hit, hit]), Some(2));
    assert_eq!(pick_found(&vec![hit, miss]), Some(0));
}

#[test]
fn search_error_texts() {
    assert_eq!(absolute_refusal("\"/etc/x\""), "Absolute paths are forbidden: got \"/etc/x\"");
    let path = SearchPath::from_dirs(dirs(&["a", "b/c"]));
    assert_eq!(path.not_found_text("\"x.em\""), "Could not find file \"x.em\" along path \"a:b/c\"");
}
