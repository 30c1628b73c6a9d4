//! The command-line surface and what each command does.

use vstd::prelude::*;

use crate::text::{holds_text, owned, push_str};

verus! {

/// The parsed command line.
#[derive(Debug, Clone, PartialEq, Eq)]
pub struct Cli {
    pub command: Command,
}

/// The top-level commands.
#[derive(Debug, Clone, PartialEq, Eq)]
pub enum Command {
    /// Inspect CPU, memory, accelerators, and model storage.
    Inspect(InspectArgs),
    /// Inspect model metadata.
    Model(ModelArgs),
    /// Rank candidate inference configurations.
    Recommend(RecommendArgs),
    /// Benchmark a model with llama.cpp.
    Benchmark(BenchmarkArgs),
    /// Render the latest optimization report.
    Report(ReportArgs),
}

/// Arguments of `inspect`.
#[derive(Debug, Clone, PartialEq, Eq)]
pub struct InspectArgs {
    /// Path whose backing storage should be inspected.
    pub path: String,
    /// Emit versioned machine-readable JSON.
    pub json: bool,
}

/// Arguments of `model`.
#[derive(Debug, Clone, PartialEq, Eq)]
pub struct ModelArgs {
    pub command: ModelCommand,
}

/// The subcommands of `model`.
#[derive(Debug, Clone, PartialEq, Eq)]
pub enum ModelCommand {
    /// Inspect metadata from a GGUF model.
    Inspect { model: String },
}

/// The optimization profiles that `recommend` accepts.
#[derive(Debug, Clone, Copy, PartialEq, Eq, Structural)]
pub enum Profile {
    MemorySaver,
    Balanced,
    QualityFirst,
    FastestMeasured,
}

/// Arguments of `recommend`.
#[derive(Debug, Clone, PartialEq, Eq)]
pub struct RecommendArgs {
    pub model: String,
    pub profile: Profile,
    pub context_tokens: Option<u32>,
    pub concurrency: u16,
    pub llama_cpp: Option<String>,
}

/// Arguments of `benchmark`.
#[derive(Debug, Clone, PartialEq, Eq)]
pub struct BenchmarkArgs {
    pub model: String,
    pub runs: u16,
    pub llama_bench: Option<String>,
}

/// Arguments of `report`.
#[derive(Debug, Clone, PartialEq, Eq)]
pub struct ReportArgs {
    pub json: bool,
}

/// What a command asks for.
#[derive(Debug, Clone, PartialEq, Eq)]
pub enum Action {
    /// Inspect the host, with storage for `path`, rendered as JSON or for people.
    Inspect { path: String, json: bool },
    /// A command that does not exist yet; the text names it.
    NotImplemented(String),
}

/// The name of each command that is not implemented yet.
pub open spec fn unfinished_name(c: Command) -> Option<Seq<char>> {
    match c {
        Command::Inspect(_) => None,
        Command::Model(_) => Some("model inspect"@),
        Command::Recommend(_) => Some("recommend"@),
        Command::Benchmark(_) => Some("benchmark"@),
        Command::Report(_) => Some("report"@),
    }
}

/// Decides what the command line asks for: `inspect` runs; every other command
/// is reported as not implemented, named as the user typed it.
pub fn run(cli: &Cli) -> (a: Action)
    ensures
        match a {
            Action::Inspect { path, json } => cli.command matches Command::Inspect(args) && path
                == args.path && json == args.json,
            Action::NotImplemented(name) => unfinished_name(cli.command) == Some(name@),
        },
{
    match &cli.command {
        Command::Inspect(args) => Action::Inspect { path: args.path.clone(), json: args.json },
        Command::Model(_) => Action::NotImplemented(owned("model inspect")),
        Command::Recommend(_) => Action::NotImplemented(owned("recommend")),
        Command::Benchmark(_) => Action::NotImplemented(owned("benchmark")),
        Command::Report(_) => Action::NotImplemented(owned("report")),
    }
}

/// The message for a command that is not implemented yet.
pub open spec fn not_implemented_text(name: Seq<char>) -> Seq<char> {
    name + " is not implemented yet"@
}

/// The message for a command that is not implemented yet.
pub fn not_implemented_message(name: &str) -> (s: String)
    ensures
        s@ == not_implemented_text(name@),
{
    let mut s = owned(name);
    push_str(&mut s, " is not implemented yet");
    s
}

/// Every command but `inspect` is refused, never run: its message names the
/// command and says that it is not implemented.
pub proof fn lemma_unfinished_commands_are_refused(c: Command)
    requires
        !(c is Inspect),
    ensures
        unfinished_name(c) matches Some(n) && holds_text(not_implemented_text(n), n)
            && holds_text(not_implemented_text(n), "not implemented"@),
{
    reveal_strlit(" is not implemented yet");
    reveal_strlit("not implemented");
    let n = unfinished_name(c)->Some_0;
    let t = not_implemented_text(n);
    let p = "not implemented"@;
    let k: int = n.len() as int + 4;
    let z: int = 0;
    assert(t.subrange(z, z + n.len()) =~= n);
    assert(t.subrange(k, k + p.len()) =~= p);
}

} // verus!
