//! Command-line interface: the subcommands and flags the tool accepts,
//! parsed from plain argument strings, and the completion install
//! locations per shell.

use vstd::prelude::*;

use crate::error::InvalidConfigError;
use crate::strutil::str_eq;
use crate::strutil::starts_with;

verus! {

/// Supported shells for completion generation.
#[derive(Debug, Clone, PartialEq, Eq)]
pub enum Shell {
    /// The bourne-again shell.
    Bash,
    /// The fish shell.
    Fish,
    /// The z shell.
    Zsh,
    /// PowerShell.
    PowerShell,
    /// The elvish shell.
    Elvish,
}

/// Available quality analysis commands.
#[derive(Debug)]
pub enum Command {
    /// Check code quality without modifying files.
    Check {
        /// Path to analyze.
        path: String,
        /// Show detailed output.
        verbose: bool,
        /// Run a specific analyzer only.
        analyzer: Option<String>,
        /// Enable colored output.
        color: bool,
    },
    /// Automatically fix quality issues.
    Fix {
        /// Path to analyze.
        path: String,
        /// Report fixes without applying them.
        dry_run: bool,
        /// Run a specific analyzer only.
        analyzer: Option<String>,
    },
    /// Format code according to quality rules.
    Format {
        /// Path to format.
        path: String,
    },
    /// Format code with the external formatter and project configuration.
    Fmt {
        /// Path to format.
        path: String,
    },
    /// Show a diff of proposed changes before applying.
    Diff {
        /// Path to analyze.
        path: String,
        /// Show a brief summary only.
        summary: bool,
        /// Select changes to apply interactively.
        interactive: bool,
        /// Run a specific analyzer only.
        analyzer: Option<String>,
        /// Enable colored output.
        color: bool,
    },
    /// Display help with examples and usage.
    Help,
    /// Generate shell completions.
    Completions {
        /// Shell to generate completions for.
        shell: Shell,
    },
    /// Set up shell completions automatically.
    Setup,
}

/// Quality analysis arguments: the subcommand to execute.
#[derive(Debug)]
pub struct QualityArgs {
    /// Subcommand to execute.
    pub command: Command,
}

/// The check options as views: path, verbose, analyzer, color.
pub type CheckState = (Option<Seq<char>>, bool, Option<Seq<char>>, bool);

/// The check flags folded over the arguments from position `i`: `-v`
/// turns on verbose output, `-c` color, `-a` takes the next argument as
/// the analyzer, one bare argument names the path; anything else refuses
/// the command line.
pub open spec fn spec_check_opts(
    args: Seq<Seq<char>>,
    i: int,
    st: CheckState,
) -> Option<CheckState>
    decreases args.len() - i,
{
    if i < 0 || i >= args.len() {
        Some(st)
    } else {
        let a = args[i];
        if a == "-v"@ || a == "--verbose"@ {
            spec_check_opts(args, i + 1, (st.0, true, st.2, st.3))
        } else if a == "-c"@ || a == "--color"@ {
            spec_check_opts(args, i + 1, (st.0, st.1, st.2, true))
        } else if a == "-a"@ || a == "--analyzer"@ {
            if i + 1 < args.len() {
                spec_check_opts(args, i + 2, (st.0, st.1, Some(args[i + 1]), st.3))
            } else {
                None
            }
        } else if "-"@.is_prefix_of(a) {
            None
        } else if st.0 is None {
            spec_check_opts(args, i + 1, (Some(a), st.1, st.2, st.3))
        } else {
            None
        }
    }
}

/// The fix options: path, dry-run, analyzer.
pub type FixState = (Option<Seq<char>>, bool, Option<Seq<char>>);

/// The fix flags folded over the arguments from position `i`.
pub open spec fn spec_fix_opts(args: Seq<Seq<char>>, i: int, st: FixState) -> Option<FixState>
    decreases args.len() - i,
{
    if i < 0 || i >= args.len() {
        Some(st)
    } else {
        let a = args[i];
        if a == "-d"@ || a == "--dry-run"@ {
            spec_fix_opts(args, i + 1, (st.0, true, st.2))
        } else if a == "-a"@ || a == "--analyzer"@ {
            if i + 1 < args.len() {
                spec_fix_opts(args, i + 2, (st.0, st.1, Some(args[i + 1])))
            } else {
                None
            }
        } else if "-"@.is_prefix_of(a) {
            None
        } else if st.0 is None {
            spec_fix_opts(args, i + 1, (Some(a), st.1, st.2))
        } else {
            None
        }
    }
}

/// The diff options: path, summary, interactive, analyzer, color.
pub type DiffState = (Option<Seq<char>>, bool, bool, Option<Seq<char>>, bool);

/// The diff flags folded over the arguments from position `i`.
pub open spec fn spec_diff_opts(args: Seq<Seq<char>>, i: int, st: DiffState) -> Option<DiffState>
    decreases args.len() - i,
{
    if i < 0 || i >= args.len() {
        Some(st)
    } else {
        let a = args[i];
        if a == "-s"@ || a == "--summary"@ {
            spec_diff_opts(args, i + 1, (st.0, true, st.2, st.3, st.4))
        } else if a == "-i"@ || a == "--interactive"@ {
            spec_diff_opts(args, i + 1, (st.0, st.1, true, st.3, st.4))
        } else if a == "-c"@ || a == "--color"@ {
            spec_diff_opts(args, i + 1, (st.0, st.1, st.2, st.3, true))
        } else if a == "-a"@ || a == "--analyzer"@ {
            if i + 1 < args.len() {
                spec_diff_opts(args, i + 2, (st.0, st.1, st.2, Some(args[i + 1]), st.4))
            } else {
                None
            }
        } else if "-"@.is_prefix_of(a) {
            None
        } else if st.0 is None {
            spec_diff_opts(args, i + 1, (Some(a), st.1, st.2, st.3, st.4))
        } else {
            None
        }
    }
}

/// One bare path argument folded over the arguments from position `i`.
pub open spec fn spec_path_opt(
    args: Seq<Seq<char>>,
    i: int,
    path: Option<Seq<char>>,
) -> Option<Option<Seq<char>>>
    decreases args.len() - i,
{
    if i < 0 || i >= args.len() {
        Some(path)
    } else {
        let a = args[i];
        if "-"@.is_prefix_of(a) {
            None
        } else if path is None {
            spec_path_opt(args, i + 1, Some(a))
        } else {
            None
        }
    }
}

/// The shell named by a completion argument.
pub open spec fn spec_shell_of(a: Seq<char>) -> Option<Shell> {
    if a == "bash"@ {
        Some(Shell::Bash)
    } else if a == "fish"@ {
        Some(Shell::Fish)
    } else if a == "zsh"@ {
        Some(Shell::Zsh)
    } else if a == "powershell"@ || a == "power-shell"@ {
        Some(Shell::PowerShell)
    } else if a == "elvish"@ {
        Some(Shell::Elvish)
    } else {
        None
    }
}

/// Whether the argument list is accepted at all: a known subcommand with
/// well-formed flags, at most one bare path, and a value after every flag
/// that takes one.
pub open spec fn spec_accepts(args: Seq<Seq<char>>) -> bool {
    if args.len() < 2 {
        false
    } else {
        let sub = args[1];
        if sub == "check"@ {
            spec_check_opts(args, 2, (None, false, None, false)) is Some
        } else if sub == "fix"@ {
            spec_fix_opts(args, 2, (None, false, None)) is Some
        } else if sub == "format"@ || sub == "fmt"@ {
            spec_path_opt(args, 2, None) is Some
        } else if sub == "diff"@ {
            spec_diff_opts(args, 2, (None, false, false, None, false)) is Some
        } else if sub == "help"@ || sub == "setup"@ {
            args.len() == 2
        } else if sub == "completions"@ {
            args.len() == 3 && spec_shell_of(args[2]) is Some
        } else {
            false
        }
    }
}

/// The path a folded option stands for: the named path, or the current
/// directory.
pub open spec fn spec_path_of(p: Option<Seq<char>>) -> Seq<char> {
    match p {
        Some(s) => s,
        None => "."@,
    }
}

/// What the parsed command's fields hold, over views.
pub open spec fn parsed_matches(cmd: Command, args: Seq<Seq<char>>) -> bool {
    match cmd {
        Command::Check { path, verbose, analyzer, color } => {
            &&& spec_check_opts(args, 2, (None, false, None, false)) matches Some(st)
            &&& path@ == spec_path_of(st.0)
            &&& verbose == st.1
            &&& (analyzer is Some <==> st.2 is Some)
            &&& (analyzer is Some ==> analyzer->0@ == st.2->0)
            &&& color == st.3
        },
        Command::Fix { path, dry_run, analyzer } => {
            &&& spec_fix_opts(args, 2, (None, false, None)) matches Some(st)
            &&& path@ == spec_path_of(st.0)
            &&& dry_run == st.1
            &&& (analyzer is Some <==> st.2 is Some)
            &&& (analyzer is Some ==> analyzer->0@ == st.2->0)
        },
        Command::Format { path } => {
            &&& spec_path_opt(args, 2, None) matches Some(p)
            &&& path@ == spec_path_of(p)
        },
        Command::Fmt { path } => {
            &&& spec_path_opt(args, 2, None) matches Some(p)
            &&& path@ == spec_path_of(p)
        },
        Command::Diff { path, summary, interactive, analyzer, color } => {
            &&& spec_diff_opts(args, 2, (None, false, false, None, false)) matches Some(st)
            &&& path@ == spec_path_of(st.0)
            &&& summary == st.1
            &&& interactive == st.2
            &&& (analyzer is Some <==> st.3 is Some)
            &&& (analyzer is Some ==> analyzer->0@ == st.3->0)
            &&& color == st.4
        },
        Command::Help => args[1] == "help"@,
        Command::Completions { shell } => spec_shell_of(args[2]) == Some(shell),
        Command::Setup => args[1] == "setup"@,
    }
}

/// The subcommand the parsed command must belong to.
pub open spec fn parsed_kind_matches(cmd: Command, sub: Seq<char>) -> bool {
    match cmd {
        Command::Check { .. } => sub == "check"@,
        Command::Fix { .. } => sub == "fix"@,
        Command::Format { .. } => sub == "format"@,
        Command::Fmt { .. } => sub == "fmt"@,
        Command::Diff { .. } => sub == "diff"@,
        Command::Help => sub == "help"@,
        Command::Completions { .. } => sub == "completions"@,
        Command::Setup => sub == "setup"@,
    }
}

impl QualityArgs {
    /// Parses a full argument list, the binary name first: the second
    /// argument picks the subcommand, flags and one optional path follow.
    /// An unknown subcommand, an unknown flag, a second bare argument or
    /// a missing flag value refuses the command line with a configuration
    /// error.
    pub fn parse_from(args: &Vec<String>) -> (r: Result<QualityArgs, InvalidConfigError>)
        ensures
            r is Ok <==> spec_accepts(args@.map_values(|a: String| a@)),
            r is Ok ==> parsed_kind_matches(
                r->Ok_0.command,
                args@.map_values(|a: String| a@)[1],
            ) && parsed_matches(r->Ok_0.command, args@.map_values(|a: String| a@)),
    {
        let ghost argv = args@.map_values(|a: String| a@);
        proof {
            reveal_strlit("check");
            reveal_strlit("fix");
            reveal_strlit("format");
            reveal_strlit("fmt");
            reveal_strlit("diff");
            reveal_strlit("help");
            reveal_strlit("completions");
            reveal_strlit("setup");
            assert(argv.len() == args@.len());
            if args@.len() >= 2 {
                assert(argv[1] == args@[1]@);
            }
        }
        if args.len() < 2 {
            return Err(InvalidConfigError::new("missing subcommand".to_owned()));
        }
        let sub = &args[1];
        if str_eq(sub.as_str(), "check") {
            match parse_check(args) {
                Some(cmd) => Ok(QualityArgs { command: cmd }),
                None => Err(InvalidConfigError::new("invalid arguments".to_owned())),
            }
        } else if str_eq(sub.as_str(), "fix") {
            match parse_fix(args) {
                Some(cmd) => Ok(QualityArgs { command: cmd }),
                None => Err(InvalidConfigError::new("invalid arguments".to_owned())),
            }
        } else if str_eq(sub.as_str(), "format") {
            match parse_path_only(args) {
                Some(path) => Ok(QualityArgs { command: Command::Format { path } }),
                None => Err(InvalidConfigError::new("invalid arguments".to_owned())),
            }
        } else if str_eq(sub.as_str(), "fmt") {
            match parse_path_only(args) {
                Some(path) => Ok(QualityArgs { command: Command::Fmt { path } }),
                None => Err(InvalidConfigError::new("invalid arguments".to_owned())),
            }
        } else if str_eq(sub.as_str(), "diff") {
            match parse_diff(args) {
                Some(cmd) => Ok(QualityArgs { command: cmd }),
                None => Err(InvalidConfigError::new("invalid arguments".to_owned())),
            }
        } else if str_eq(sub.as_str(), "help") {
            if args.len() == 2 {
                Ok(QualityArgs { command: Command::Help })
            } else {
                Err(InvalidConfigError::new("unexpected arguments".to_owned()))
            }
        } else if str_eq(sub.as_str(), "completions") {
            if args.len() == 3 {
                match parse_shell(args[2].as_str()) {
                    Some(shell) => Ok(QualityArgs { command: Command::Completions { shell } }),
                    None => Err(InvalidConfigError::new("unknown shell".to_owned())),
                }
            } else {
                Err(InvalidConfigError::new("expected one shell name".to_owned()))
            }
        } else if str_eq(sub.as_str(), "setup") {
            if args.len() == 2 {
                Ok(QualityArgs { command: Command::Setup })
            } else {
                Err(InvalidConfigError::new("unexpected arguments".to_owned()))
            }
        } else {
            Err(InvalidConfigError::new("unknown subcommand".to_owned()))
        }
    }
}

fn parse_shell(a: &str) -> (r: Option<Shell>)
    ensures
        r == spec_shell_of(a@),
{
    proof {
        reveal_strlit("bash");
        reveal_strlit("fish");
        reveal_strlit("zsh");
        reveal_strlit("powershell");
        reveal_strlit("power-shell");
        reveal_strlit("elvish");
    }
    if str_eq(a, "bash") {
        Some(Shell::Bash)
    } else if str_eq(a, "fish") {
        Some(Shell::Fish)
    } else if str_eq(a, "zsh") {
        Some(Shell::Zsh)
    } else if str_eq(a, "powershell") || str_eq(a, "power-shell") {
        Some(Shell::PowerShell)
    } else if str_eq(a, "elvish") {
        Some(Shell::Elvish)
    } else {
        None
    }
}

fn path_or_default(path: Option<String>) -> (r: String)
    ensures
        r@ == spec_path_of(match path {
            Some(p) => Some(p@),
            None => None,
        }),
{
    proof {
        reveal_strlit(".");
    }
    match path {
        Some(p) => p,
        None => ".".to_owned(),
    }
}

fn parse_check(args: &Vec<String>) -> (r: Option<Command>)
    ensures
        r is Some <==> spec_check_opts(
            args@.map_values(|a: String| a@),
            2,
            (None, false, None, false),
        ) is Some,
        r is Some ==> parsed_matches(r->0, args@.map_values(|a: String| a@)) && r->0 is Check,
{
    let ghost argv = args@.map_values(|a: String| a@);
    let mut path: Option<String> = None;
    let mut verbose = false;
    let mut analyzer: Option<String> = None;
    let mut color = false;
    let n = args.len();
    let mut i: usize = 2;
    proof {
        reveal_strlit("-v");
        reveal_strlit("--verbose");
        reveal_strlit("-c");
        reveal_strlit("--color");
        reveal_strlit("-a");
        reveal_strlit("--analyzer");
        reveal_strlit("-");
    }
    while i < n
        invariant
            2 <= i,
            n == args@.len(),
            argv == args@.map_values(|a: String| a@),
            spec_check_opts(argv, 2, (None, false, None, false)) == spec_check_opts(
                argv,
                i as int,
                (
                    match path {
                        Some(ref p) => Some(p@),
                        None => None,
                    },
                    verbose,
                    match analyzer {
                        Some(ref a) => Some(a@),
                        None => None,
                    },
                    color,
                ),
            ),
        decreases n - i,
    {
        proof {
            reveal_strlit("-v");
            reveal_strlit("--verbose");
            reveal_strlit("-c");
            reveal_strlit("--color");
            reveal_strlit("-a");
            reveal_strlit("--analyzer");
            reveal_strlit("-");
        }
        let a = &args[i];
        if str_eq(a.as_str(), "-v") || str_eq(a.as_str(), "--verbose") {
            verbose = true;
            i = i + 1;
        } else if str_eq(a.as_str(), "-c") || str_eq(a.as_str(), "--color") {
            color = true;
            i = i + 1;
        } else if str_eq(a.as_str(), "-a") || str_eq(a.as_str(), "--analyzer") {
            if i + 1 < n {
                analyzer = Some(args[i + 1].clone());
                i = i + 2;
            } else {
                return None;
            }
        } else if starts_with(a.as_str(), "-") {
            return None;
        } else if path.is_none() {
            path = Some(a.clone());
            i = i + 1;
        } else {
            return None;
        }
    }
    let p = path_or_default(path);
    Some(Command::Check { path: p, verbose, analyzer, color })
}

fn parse_fix(args: &Vec<String>) -> (r: Option<Command>)
    ensures
        r is Some <==> spec_fix_opts(args@.map_values(|a: String| a@), 2, (None, false, None))
            is Some,
        r is Some ==> parsed_matches(r->0, args@.map_values(|a: String| a@)) && r->0 is Fix,
{
    let ghost argv = args@.map_values(|a: String| a@);
    let mut path: Option<String> = None;
    let mut dry_run = false;
    let mut analyzer: Option<String> = None;
    let n = args.len();
    let mut i: usize = 2;
    while i < n
        invariant
            2 <= i,
            n == args@.len(),
            argv == args@.map_values(|a: String| a@),
            spec_fix_opts(argv, 2, (None, false, None)) == spec_fix_opts(
                argv,
                i as int,
                (
                    match path {
                        Some(ref p) => Some(p@),
                        None => None,
                    },
                    dry_run,
                    match analyzer {
                        Some(ref a) => Some(a@),
                        None => None,
                    },
                ),
            ),
        decreases n - i,
    {
        proof {
            reveal_strlit("-d");
            reveal_strlit("--dry-run");
            reveal_strlit("-a");
            reveal_strlit("--analyzer");
            reveal_strlit("-");
        }
        let a = &args[i];
        if str_eq(a.as_str(), "-d") || str_eq(a.as_str(), "--dry-run") {
            dry_run = true;
            i = i + 1;
        } else if str_eq(a.as_str(), "-a") || str_eq(a.as_str(), "--analyzer") {
            if i + 1 < n {
                analyzer = Some(args[i + 1].clone());
                i = i + 2;
            } else {
                return None;
            }
        } else if starts_with(a.as_str(), "-") {
            return None;
        } else if path.is_none() {
            path = Some(a.clone());
            i = i + 1;
        } else {
            return None;
        }
    }
    let p = path_or_default(path);
    Some(Command::Fix { path: p, dry_run, analyzer })
}

fn parse_diff(args: &Vec<String>) -> (r: Option<Command>)
    ensures
        r is Some <==> spec_diff_opts(
            args@.map_values(|a: String| a@),
            2,
            (None, false, false, None, false),
        ) is Some,
        r is Some ==> parsed_matches(r->0, args@.map_values(|a: String| a@)) && r->0 is Diff,
{
    let ghost argv = args@.map_values(|a: String| a@);
    let mut path: Option<String> = None;
    let mut summary = false;
    let mut interactive = false;
    let mut analyzer: Option<String> = None;
    let mut color = false;
    let n = args.len();
    let mut i: usize = 2;
    while i < n
        invariant
            2 <= i,
            n == args@.len(),
            argv == args@.map_values(|a: String| a@),
            spec_diff_opts(argv, 2, (None, false, false, None, false)) == spec_diff_opts(
                argv,
                i as int,
                (
                    match path {
                        Some(ref p) => Some(p@),
                        None => None,
                    },
                    summary,
                    interactive,
                    match analyzer {
                        Some(ref a) => Some(a@),
                        None => None,
                    },
                    color,
                ),
            ),
        decreases n - i,
    {
        proof {
            reveal_strlit("-s");
            reveal_strlit("--summary");
            reveal_strlit("-i");
            reveal_strlit("--interactive");
            reveal_strlit("-c");
            reveal_strlit("--color");
            reveal_strlit("-a");
            reveal_strlit("--analyzer");
            reveal_strlit("-");
        }
        let a = &args[i];
        if str_eq(a.as_str(), "-s") || str_eq(a.as_str(), "--summary") {
            summary = true;
            i = i + 1;
        } else if str_eq(a.as_str(), "-i") || str_eq(a.as_str(), "--interactive") {
            interactive = true;
            i = i + 1;
        } else if str_eq(a.as_str(), "-c") || str_eq(a.as_str(), "--color") {
            color = true;
            i = i + 1;
        } else if str_eq(a.as_str(), "-a") || str_eq(a.as_str(), "--analyzer") {
            if i + 1 < n {
                analyzer = Some(args[i + 1].clone());
                i = i + 2;
            } else {
                return None;
            }
        } else if starts_with(a.as_str(), "-") {
            return None;
        } else if path.is_none() {
            path = Some(a.clone());
            i = i + 1;
        } else {
            return None;
        }
    }
    let p = path_or_default(path);
    Some(Command::Diff { path: p, summary, interactive, analyzer, color })
}

fn parse_path_only(args: &Vec<String>) -> (r: Option<String>)
    ensures
        r is Some <==> spec_path_opt(args@.map_values(|a: String| a@), 2, None) is Some,
        r is Some ==> r->0@ == spec_path_of(
            spec_path_opt(args@.map_values(|a: String| a@), 2, None)->0,
        ),
{
    let ghost argv = args@.map_values(|a: String| a@);
    let mut path: Option<String> = None;
    let n = args.len();
    let mut i: usize = 2;
    while i < n
        invariant
            2 <= i,
            n == args@.len(),
            argv == args@.map_values(|a: String| a@),
            spec_path_opt(argv, 2, None) == spec_path_opt(
                argv,
                i as int,
                match path {
                    Some(ref p) => Some(p@),
                    None => None,
                },
            ),
        decreases n - i,
    {
        proof {
            reveal_strlit("-");
        }
        let a = &args[i];
        if starts_with(a.as_str(), "-") {
            return None;
        } else if path.is_none() {
            path = Some(a.clone());
            i = i + 1;
        } else {
            return None;
        }
    }
    Some(path_or_default(path))
}

/// The completion install location for a shell: the shell, the directory
/// under the given configuration or data home, and the file name; an
/// unsupported shell has none.
pub fn get_completion_config(shell_name: &str, config_home: &str, data_home: &str) -> (r: Option<
    (Shell, String, String),
>)
    ensures
        match r {
            Some(c) => (shell_name@ == "fish"@ && c.0 == Shell::Fish && c.1@ == config_home@
                + "/fish/completions"@ && c.2@ == "cargo.fish"@) || (shell_name@ == "bash"@ && c.0
                == Shell::Bash && c.1@ == data_home@ + "/bash-completion/completions"@ && c.2@
                == "cargo-quality"@) || (shell_name@ == "zsh"@ && c.0 == Shell::Zsh && c.1@
                == data_home@ + "/zsh/site-functions"@ && c.2@ == "_cargo-quality"@),
            None => shell_name@ != "fish"@ && shell_name@ != "bash"@ && shell_name@ != "zsh"@,
        },
{
    proof {
        reveal_strlit("fish");
        reveal_strlit("bash");
        reveal_strlit("zsh");
    }
    if str_eq(shell_name, "fish") {
        let mut dir = config_home.to_owned();
        dir.append("/fish/completions");
        Some((Shell::Fish, dir, "cargo.fish".to_owned()))
    } else if str_eq(shell_name, "bash") {
        let mut dir = data_home.to_owned();
        dir.append("/bash-completion/completions");
        Some((Shell::Bash, dir, "cargo-quality".to_owned()))
    } else if str_eq(shell_name, "zsh") {
        let mut dir = data_home.to_owned();
        dir.append("/zsh/site-functions");
        Some((Shell::Zsh, dir, "_cargo-quality".to_owned()))
    } else {
        None
    }
}

} // verus!
