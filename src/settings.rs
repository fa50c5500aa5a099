//! Compilation settings, the command-line options they come from, and how the
//! arguments of a combined build-and-serve run are split.
use vstd::prelude::*;
use crate::text::same_text;

verus! {

/// How much the compiler reports while it works.
#[derive(Clone, Copy, Debug, PartialEq, Eq, Structural)]
pub enum CompilationLogLevel {
    /// Next to nothing.
    Minimal,
    /// One line per file.
    Brief,
    /// One line per step of each file.
    PerStep,
}

/// The rank of a log level: the higher, the more is reported.
pub open spec fn level_rank(l: CompilationLogLevel) -> int {
    match l {
        CompilationLogLevel::Minimal => 1,
        CompilationLogLevel::Brief => 2,
        CompilationLogLevel::PerStep => 3,
    }
}

/// Whether a message meant for `required` is reported at `log_level`.
pub fn log_enabled(log_level: CompilationLogLevel, required: CompilationLogLevel) -> (r: bool)
    ensures
        r == (level_rank(log_level) >= level_rank(required)),
{
    let a: u8 = match log_level {
        CompilationLogLevel::Minimal => 1,
        CompilationLogLevel::Brief => 2,
        CompilationLogLevel::PerStep => 3,
    };
    let b: u8 = match required {
        CompilationLogLevel::Minimal => 1,
        CompilationLogLevel::Brief => 2,
        CompilationLogLevel::PerStep => 3,
    };
    a >= b
}

/// The settings of one compilation run.
#[derive(Clone, Copy, Debug)]
pub struct CompilationSettings {
    pub log_level: CompilationLogLevel,
    pub minify_files: bool,
    pub debug_tokens: bool,
    pub preserve_html_comments: bool,
}

/// The command-line options of the compiler.
#[derive(Debug)]
pub struct Options {
    pub verbosity: i32,
    pub debug_tokens: bool,
    pub do_not_minify: bool,
    pub project_path: String,
    pub preserve_html_comments: bool,
}

/// The settings that the options ask for. Verbosity goes from 0 to 2.
pub fn compilation_settings_from_args(args: &Options) -> (r: CompilationSettings)
    requires
        0 <= args.verbosity <= 2,
    ensures
        level_rank(r.log_level) == args.verbosity + 1,
        r.debug_tokens == args.debug_tokens,
        r.minify_files == !args.do_not_minify,
        r.preserve_html_comments == args.preserve_html_comments,
{
    let log_level = if args.verbosity == 0 {
        CompilationLogLevel::Minimal
    } else if args.verbosity == 1 {
        CompilationLogLevel::Brief
    } else {
        CompilationLogLevel::PerStep
    };
    CompilationSettings {
        log_level,
        debug_tokens: args.debug_tokens,
        minify_files: !args.do_not_minify,
        preserve_html_comments: args.preserve_html_comments,
    }
}

/// The arguments from `i` on, split between the build and the serve step: those
/// after the first `--` go to the build, those after the second to the serve
/// step; the split stops at an argument before the first `--` or after a third.
/// `separators` counts the `--` seen before `i`.
pub open spec fn split_args(args: Seq<Seq<char>>, i: int, separators: int) -> (Seq<Seq<char>>, Seq<Seq<char>>)
    decreases args.len() - i,
{
    if i < 0 || i >= args.len() {
        (seq![], seq![])
    } else if args[i] == "--"@ {
        split_args(args, i + 1, separators + 1)
    } else if separators == 1 {
        let (b, s) = split_args(args, i + 1, separators);
        (seq![args[i]] + b, s)
    } else if separators == 2 {
        let (b, s) = split_args(args, i + 1, separators);
        (b, seq![args[i]] + s)
    } else {
        (seq![], seq![])
    }
}

/// Splits the arguments of a combined run (the first is the program name) into
/// those of the build step and those of the serve step, each list headed by the
/// name of its step.
pub fn separate_args(raw_args: &Vec<String>) -> (r: (Vec<String>, Vec<String>))
    requires
        raw_args.len() > 0,
    ensures
        r.0@.map_values(|a: String| a@)
            == seq!["spall build"@] + split_args(raw_args@.map_values(|a: String| a@), 1, 0).0,
        r.1@.map_values(|a: String| a@)
            == seq!["spall serve"@] + split_args(raw_args@.map_values(|a: String| a@), 1, 0).1,
{
    let ghost args = raw_args@.map_values(|a: String| a@);
    let mut build_args: Vec<String> = vec!["spall build".to_owned()];
    let mut serve_args: Vec<String> = vec!["spall serve".to_owned()];
    let ghost b0 = build_args@.map_values(|a: String| a@);
    let ghost s0 = serve_args@.map_values(|a: String| a@);
    let mut separator_count: usize = 0;
    let mut k: usize = 1;
    let mut stopped = false;
    while k < raw_args.len() && !stopped
        invariant
            1 <= k <= raw_args.len(),
            separator_count < k,
            args == raw_args@.map_values(|a: String| a@),
            build_args@.len() >= 1,
            serve_args@.len() >= 1,
            stopped ==> b0 + split_args(args, 1, 0).0 == build_args@.map_values(|a: String| a@),
            stopped ==> s0 + split_args(args, 1, 0).1 == serve_args@.map_values(|a: String| a@),
            !stopped ==> b0 + split_args(args, 1, 0).0
                == build_args@.map_values(|a: String| a@) + split_args(args, k as int, separator_count as int).0,
            !stopped ==> s0 + split_args(args, 1, 0).1
                == serve_args@.map_values(|a: String| a@) + split_args(args, k as int, separator_count as int).1,
            b0 == seq!["spall build"@],
            s0 == seq!["spall serve"@],
        decreases raw_args.len() - k,
    {
        let arg = &raw_args[k];
        let ghost bv = build_args@.map_values(|a: String| a@);
        let ghost sv = serve_args@.map_values(|a: String| a@);
        let ghost rest = split_args(args, k + 1, separator_count as int);
        if same_text(arg.as_str(), "--") {
            separator_count = separator_count + 1;
        } else if separator_count == 1 {
            build_args.push(arg.clone());
            assert(build_args@.map_values(|a: String| a@) =~= bv.push(args[k as int]));
            assert(bv + (seq![args[k as int]] + rest.0) =~= bv.push(args[k as int]) + rest.0);
        } else if separator_count == 2 {
            serve_args.push(arg.clone());
            assert(serve_args@.map_values(|a: String| a@) =~= sv.push(args[k as int]));
            assert(sv + (seq![args[k as int]] + rest.1) =~= sv.push(args[k as int]) + rest.1);
        } else {
            stopped = true;
            assert(bv + seq![] =~= bv);
            assert(sv + seq![] =~= sv);
        }
        k = k + 1;
    }
    if !stopped {
        assert(build_args@.map_values(|a: String| a@) + seq![] =~= build_args@.map_values(|a: String| a@));
        assert(serve_args@.map_values(|a: String| a@) + seq![] =~= serve_args@.map_values(|a: String| a@));
    }
    (build_args, serve_args)
}

/// A subcommand of the `spall` program.
#[derive(Clone, Copy, Debug, PartialEq, Eq, Structural)]
pub enum Command {
    Build,
    Serve,
    Run,
    Init,
}

/// The subcommand named `name`, if there is one.
pub open spec fn command_named(name: Seq<char>) -> Option<Command> {
    if name == "build"@ {
        Some(Command::Build)
    } else if name == "serve"@ {
        Some(Command::Serve)
    } else if name == "run"@ {
        Some(Command::Run)
    } else if name == "init"@ {
        Some(Command::Init)
    } else {
        None
    }
}

/// Reads the name of a subcommand.
pub fn parse_command(name: &str) -> (r: Option<Command>)
    ensures
        r == command_named(name@),
{
    if same_text(name, "build") {
        Some(Command::Build)
    } else if same_text(name, "serve") {
        Some(Command::Serve)
    } else if same_text(name, "run") {
        Some(Command::Run)
    } else if same_text(name, "init") {
        Some(Command::Init)
    } else {
        None
    }
}

/// Whether an answer to a yes/no question says yes: it starts with `y`.
pub fn answer_is_yes(answer: &str) -> (r: bool)
    ensures
        r == (answer@.len() > 0 && answer@[0] == 'y'),
{
    let v = crate::text::chars_of(answer);
    v.len() > 0 && v[0] == 'y'
}

} // verus!
