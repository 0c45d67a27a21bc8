//! The command line: which commands there are, what they print, and what their arguments
//! mean.
use crate::catalog::{split_at, split_once};
use crate::migrate::RelationOverride;
use crate::lines::{chars_of, text_between, trim_end, trim_start, white_before, white_behind};
use crate::text::{opt_text, owned, same, text_outcome, texts};
use crate::ENGINE_VERSION;
use vstd::prelude::*;
use vstd::string::*;

verus! {

/// A command.
#[derive(Clone, Copy, Debug, PartialEq, Eq, Structural)]
pub enum TopLevelCommand {
    Compile,
    CompileComposed,
    RunCompiled,
    EmitSchemas,
    Migrate,
    Capabilities,
    Version,
    Help,
}

/// A command as it is called and described.
#[derive(Debug)]
pub struct CommandMetadata {
    pub command: TopLevelCommand,
    pub name: &'static str,
    pub aliases: Vec<&'static str>,
    /// What the command does, a text per line.
    pub description: Vec<&'static str>,
}

/// The model of a [`CommandMetadata`].
pub ghost struct CommandView {
    pub command: TopLevelCommand,
    pub name: Seq<char>,
    pub aliases: Seq<Seq<char>>,
    pub description: Seq<Seq<char>>,
}

pub open spec fn literals(v: Seq<&'static str>) -> Seq<Seq<char>> {
    v.map_values(|s: &'static str| s@)
}

impl CommandMetadata {
    pub open spec fn view(&self) -> CommandView {
        CommandView {
            command: self.command,
            name: self.name@,
            aliases: literals(self.aliases@),
            description: literals(self.description@),
        }
    }
}

/// The commands, in the order in which they are listed.
pub open spec fn commands() -> Seq<CommandView> {
    seq![
        CommandView {
            command: TopLevelCommand::Compile,
            name: "compile"@,
            aliases: Seq::empty(),
            description: seq!["Compile an atomic RuleSpec module inside a canonical country"@, "checkout into a program artifact."@],
        },
        CommandView {
            command: TopLevelCommand::CompileComposed,
            name: "compile-composed"@,
            aliases: Seq::empty(),
            description: seq!["Compile an originless `module.kind: composition` produced by"@, "axiom-compose."@],
        },
        CommandView {
            command: TopLevelCommand::RunCompiled,
            name: "run-compiled"@,
            aliases: Seq::empty(),
            description: seq!["Execute a compiled artifact against a JSON request on stdin."@],
        },
        CommandView {
            command: TopLevelCommand::EmitSchemas,
            name: "emit-schemas"@,
            aliases: Seq::empty(),
            description: seq!["Write JSON Schemas for the wire types (schema feature only)."@],
        },
        CommandView {
            command: TopLevelCommand::Migrate,
            name: "migrate"@,
            aliases: Seq::empty(),
            description: seq!["Corpus-migration tooling; `migrate scan <path>...` inventories"@, "hand-expanded exactly-one patterns (#152); `migrate artifact`"@, "types the relations of an artifact compiled before relation"@, "entity typing became mandatory."@],
        },
        CommandView {
            command: TopLevelCommand::Capabilities,
            name: "capabilities"@,
            aliases: Seq::empty(),
            description: seq!["Print, as JSON, the engine version and the artifact format"@, "version the loader enforces. Semver alone cannot answer"@, "whether an artifact will load; this can."@],
        },
        CommandView {
            command: TopLevelCommand::Version,
            name: "version"@,
            aliases: seq!["--version"@],
            description: seq!["Print the engine version."@],
        },
        CommandView {
            command: TopLevelCommand::Help,
            name: "help"@,
            aliases: seq!["--help"@, "-h"@],
            description: seq!["Print this message."@],
        },
    ]
}

fn entry(
    command: TopLevelCommand,
    name: &'static str,
    aliases: Vec<&'static str>,
    description: Vec<&'static str>,
) -> (r: CommandMetadata)
    ensures
        r@ == (CommandView {
            command,
            name: name@,
            aliases: literals(aliases@),
            description: literals(description@),
        }),
{
    CommandMetadata { command, name, aliases, description }
}

pub open spec fn command_views(v: Seq<CommandMetadata>) -> Seq<CommandView> {
    v.map_values(|c: CommandMetadata| c@)
}

/// The commands, in the order in which they are listed.
pub fn top_level_commands() -> (r: Vec<CommandMetadata>)
    ensures
        command_views(r@) == commands(),
{
    let mut list: Vec<CommandMetadata> = Vec::new();
    let aliases: Vec<&'static str> = Vec::new();
    let description: Vec<&'static str> = vec!["Compile an atomic RuleSpec module inside a canonical country", "checkout into a program artifact."];
    proof {
        assert(literals(aliases@) =~= commands()[0].aliases);
        assert(literals(description@) =~= commands()[0].description);
    }
    list.push(entry(TopLevelCommand::Compile, "compile", aliases, description));
    let aliases: Vec<&'static str> = Vec::new();
    let description: Vec<&'static str> = vec!["Compile an originless `module.kind: composition` produced by", "axiom-compose."];
    proof {
        assert(literals(aliases@) =~= commands()[1].aliases);
        assert(literals(description@) =~= commands()[1].description);
    }
    list.push(entry(TopLevelCommand::CompileComposed, "compile-composed", aliases, description));
    let aliases: Vec<&'static str> = Vec::new();
    let description: Vec<&'static str> = vec!["Execute a compiled artifact against a JSON request on stdin."];
    proof {
        assert(literals(aliases@) =~= commands()[2].aliases);
        assert(literals(description@) =~= commands()[2].description);
    }
    list.push(entry(TopLevelCommand::RunCompiled, "run-compiled", aliases, description));
    let aliases: Vec<&'static str> = Vec::new();
    let description: Vec<&'static str> = vec!["Write JSON Schemas for the wire types (schema feature only)."];
    proof {
        assert(literals(aliases@) =~= commands()[3].aliases);
        assert(literals(description@) =~= commands()[3].description);
    }
    list.push(entry(TopLevelCommand::EmitSchemas, "emit-schemas", aliases, description));
    let aliases: Vec<&'static str> = Vec::new();
    let description: Vec<&'static str> = vec!["Corpus-migration tooling; `migrate scan <path>...` inventories", "hand-expanded exactly-one patterns (#152); `migrate artifact`", "types the relations of an artifact compiled before relation", "entity typing became mandatory."];
    proof {
        assert(literals(aliases@) =~= commands()[4].aliases);
        assert(literals(description@) =~= commands()[4].description);
    }
    list.push(entry(TopLevelCommand::Migrate, "migrate", aliases, description));
    let aliases: Vec<&'static str> = Vec::new();
    let description: Vec<&'static str> = vec!["Print, as JSON, the engine version and the artifact format", "version the loader enforces. Semver alone cannot answer", "whether an artifact will load; this can."];
    proof {
        assert(literals(aliases@) =~= commands()[5].aliases);
        assert(literals(description@) =~= commands()[5].description);
    }
    list.push(entry(TopLevelCommand::Capabilities, "capabilities", aliases, description));
    let aliases: Vec<&'static str> = vec!["--version"];
    let description: Vec<&'static str> = vec!["Print the engine version."];
    proof {
        assert(literals(aliases@) =~= commands()[6].aliases);
        assert(literals(description@) =~= commands()[6].description);
    }
    list.push(entry(TopLevelCommand::Version, "version", aliases, description));
    let aliases: Vec<&'static str> = vec!["--help", "-h"];
    let description: Vec<&'static str> = vec!["Print this message."];
    proof {
        assert(literals(aliases@) =~= commands()[7].aliases);
        assert(literals(description@) =~= commands()[7].description);
    }
    list.push(entry(TopLevelCommand::Help, "help", aliases, description));
    assert(command_views(list@) =~= commands());
    list
}

/// Whether a command is called by a name: its own, or another.
pub open spec fn is_called(c: CommandView, name: Seq<char>) -> bool {
    c.name == name || c.aliases.contains(name)
}

/// The first of the first `n` commands that is called by a name.
pub open spec fn command_among(list: Seq<CommandView>, name: Seq<char>, n: nat) -> Option<
    TopLevelCommand,
>
    decreases n,
{
    if n == 0 || n > list.len() {
        None
    } else {
        match command_among(list, name, (n - 1) as nat) {
            Some(command) => Some(command),
            None => if is_called(list[n - 1], name) {
                Some(list[n - 1].command)
            } else {
                None
            },
        }
    }
}

proof fn command_stays(list: Seq<CommandView>, name: Seq<char>, n: nat, m: nat)
    requires
        n <= m <= list.len(),
        command_among(list, name, n) is Some,
    ensures
        command_among(list, name, m) == command_among(list, name, n),
    decreases m,
{
    if n < m {
        command_stays(list, name, n, (m - 1) as nat);
    }
}

fn has_literal(list: &Vec<&'static str>, text: &str) -> (r: bool)
    ensures
        r == literals(list@).contains(text@),
{
    let ghost all = literals(list@);
    let mut i: usize = 0;
    while i < list.len()
        invariant
            i <= list@.len(),
            all == literals(list@),
            forall|j: int| 0 <= j < i ==> #[trigger] all[j] != text@,
        decreases list@.len() - i,
    {
        assert(all[i as int] == list@[i as int]@);
        if same(list[i], text) {
            return true;
        }
        i = i + 1;
    }
    false
}

/// The command that a name calls.
pub fn recognize_top_level_command(name: &str) -> (r: Option<TopLevelCommand>)
    ensures
        r == command_among(commands(), name@, commands().len()),
{
    let list = top_level_commands();
    let ghost all = commands();
    assert(list@.len() == command_views(list@).len());
    let mut i: usize = 0;
    while i < list.len()
        invariant
            i <= list@.len(),
            all == command_views(list@),
            list@.len() == all.len(),
            all == commands(),
            command_among(all, name@, i as nat) is None,
        decreases list@.len() - i,
    {
        assert(all[i as int] == list@[i as int]@);
        if same(list[i].name, name) || has_literal(&list[i].aliases, name) {
            proof {
                assert(command_among(all, name@, (i + 1) as nat) == Some(
                    list@[i as int].command,
                ));
                command_stays(all, name@, (i + 1) as nat, all.len());
            }
            return Some(list[i].command);
        }
        i = i + 1;
    }
    None
}

/// The first line of the program's own version.
pub fn version_line() -> (r: String)
    ensures
        r@ == "axiom-rules-engine "@ + ENGINE_VERSION@,
{
    let mut text = owned("axiom-rules-engine ");
    text.append(ENGINE_VERSION);
    text
}

pub const TOP_USAGE_HEADER: &'static str = "axiom-rules-engine — RuleSpec compiler and runtime\n\nusage: axiom-rules-engine <command> [options]\n       axiom-rules-engine < request.json\n\ncommands:\n";

pub const TOP_USAGE_FOOTER: &'static str = "Run `axiom-rules-engine <command> --help` for the options of a specific command.\n\nWith no command and a piped stdin, a self-contained JSON `ExecutionRequest` is read\nfrom stdin and its response written to stdout:\n\n  axiom-rules-engine run-compiled --artifact compiled.json < request.json\n\nNote: the released v0.1.1 binary has a different compile interface from this one —\nits `compile` takes only --program and --output, and it has no `compile-composed`.\nSee docs/install.md.";

pub const COMPILE_USAGE: &'static str = "usage: axiom-rules-engine compile --program <absolute rules.yaml> --rulespec-root <absolute rulespec-cc> [--rulespec-root <absolute rulespec-cc>]... --output <compiled.json> [--corpus-provisions <path>]...\n       axiom-rules-engine compile-composed --program <absolute composition.yaml> --rulespec-root <absolute rulespec-cc> [--rulespec-root <absolute rulespec-cc>]... --output <compiled.json> [--corpus-provisions <path>]...\n\n  --program <path>            `compile`: atomic module inside a configured root.\n                              `compile-composed`: originless, external\n                              `module.kind: composition` output from\n                              axiom-compose with canonical imports only.\n  --rulespec-root <path>      Required, repeatable exact canonical country\n                              checkout named rulespec-<country>. This is the\n                              sole filesystem import authority.\n  --output <path>             Where to write the compiled artifact JSON.\n  --corpus-provisions <path>  Optional, repeatable. A corpus provisions JSONL\n                              file, or a directory scanned recursively for\n                              *.jsonl files in sorted path order. Each record's\n                              citation_path -> source_url mapping resolves the\n                              source_url of every rule/parameter whose origin\n                              module declares that corpus_citation_path and\n                              that has no inline source_url. When the same\n                              citation path appears more than once, the record\n                              loaded later wins. Purely a compile-time lookup:\n                              same inputs always produce a byte-identical\n                              artifact.";

pub const MIGRATE_ARTIFACT_USAGE: &'static str = "migrate artifact --artifact <compiled.json> [--output <typed.json>] [--relation-entities <relation>=<Kind>,<Kind>]... [--json]";

/// Blanks.
pub open spec fn blanks(n: nat) -> Seq<char> {
    Seq::new(n, |i: int| ' ')
}

/// The blanks behind a command's name: up to a column, or two.
pub open spec fn name_padding(name: Seq<char>) -> nat {
    if name.len() < 18 {
        (18 - name.len()) as nat
    } else {
        2
    }
}

/// The lines of a description from `from` on, indented.
pub open spec fn continued(description: Seq<Seq<char>>, from: nat) -> Seq<char>
    decreases description.len() - from,
{
    if from >= description.len() {
        Seq::empty()
    } else {
        "                    "@ + description[from as int] + "\n"@ + continued(
            description,
            from + 1,
        )
    }
}

/// A command as the usage lists it.
pub open spec fn command_text(c: CommandView) -> Seq<char> {
    "  "@ + c.name + blanks(name_padding(c.name)) + c.description[0] + "\n"@ + continued(
        c.description,
        1,
    )
}

/// The first `n` commands as the usage lists them.
pub open spec fn commands_text(list: Seq<CommandView>, n: nat) -> Seq<char>
    decreases n,
{
    if n == 0 || n > list.len() {
        Seq::empty()
    } else {
        commands_text(list, (n - 1) as nat) + command_text(list[n - 1])
    }
}

fn push_blanks(text: &mut String, n: usize)
    ensures
        final(text)@ == old(text)@ + blanks(n as nat),
{
    let ghost before = text@;
    let mut i: usize = 0;
    assert(text@ =~= before + blanks(0));
    while i < n
        invariant
            i <= n,
            text@ == before + blanks(i as nat),
        decreases n - i,
    {
        text.push(' ');
        i = i + 1;
        assert(text@ =~= before + blanks(i as nat));
    }
}

fn push_command(text: &mut String, command: &CommandMetadata)
    requires
        command.description@.len() > 0,
    ensures
        final(text)@ == old(text)@ + command_text(command@),
{
    let ghost before = text@;
    let ghost description = literals(command.description@);
    text.append("  ");
    text.append(command.name);
    let width = command.name.unicode_len();
    let padding: usize = if width < 18 {
        18 - width
    } else {
        2
    };
    push_blanks(text, padding);
    text.append(command.description[0]);
    text.append("\n");
    let ghost first = text@;
    let mut i: usize = 1;
    assert(first + continued(description, 1) =~= first + continued(description, 1));
    while i < command.description.len()
        invariant
            1 <= i <= command.description@.len(),
            description == literals(command.description@),
            first + continued(description, 1) == text@ + continued(description, i as nat),
        decreases command.description@.len() - i,
    {
        let ghost earlier = text@;
        assert(description[i as int] == command.description@[i as int]@);
        text.append("                    ");
        text.append(command.description[i]);
        text.append("\n");
        assert(earlier + continued(description, i as nat) =~= text@ + continued(
            description,
            (i + 1) as nat,
        ));
        i = i + 1;
    }
    proof {
        assert(continued(description, i as nat) =~= Seq::<char>::empty());
        assert(description[0] == command.description@[0]@);
        assert(text@ =~= before + command_text(command@));
    }
}

/// How the program is called.
pub fn top_usage() -> (r: String)
    ensures
        r@ == TOP_USAGE_HEADER@ + commands_text(commands(), commands().len()) + "\n"@
            + TOP_USAGE_FOOTER@,
{
    let list = top_level_commands();
    let ghost all = commands();
    assert(list@.len() == command_views(list@).len());
    let mut text = owned(TOP_USAGE_HEADER);
    let mut i: usize = 0;
    assert(text@ =~= TOP_USAGE_HEADER@ + commands_text(all, 0));
    while i < list.len()
        invariant
            i <= list@.len(),
            all == command_views(list@),
            all == commands(),
            list@.len() == all.len(),
            text@ == TOP_USAGE_HEADER@ + commands_text(all, i as nat),
        decreases list@.len() - i,
    {
        assert(all[i as int] == list@[i as int]@);
        assert(commands()[i as int].description.len() > 0);
        push_command(&mut text, &list[i]);
        assert(text@ =~= TOP_USAGE_HEADER@ + commands_text(all, (i + 1) as nat));
        i = i + 1;
    }
    text.append("\n");
    text.append(TOP_USAGE_FOOTER);
    text
}

/// What the arguments of `compile` ask for.
#[derive(Debug)]
pub enum CompileCommand {
    Help,
    Compile {
        program: String,
        output: String,
        rulespec_roots: Vec<String>,
        corpus_provisions: Vec<String>,
    },
}

/// The arguments of `compile` that were read.
pub ghost struct CompileArgs {
    pub program: Option<Seq<char>>,
    pub output: Option<Seq<char>>,
    pub roots: Seq<Seq<char>>,
    pub provisions: Seq<Seq<char>>,
}

/// The model of what comes of the arguments of `compile`.
pub ghost enum CompileCommandView {
    Help,
    Compile {
        program: Seq<char>,
        output: Seq<char>,
        roots: Seq<Seq<char>>,
        provisions: Seq<Seq<char>>,
    },
}

pub open spec fn next_arg(args: Seq<Seq<char>>, i: nat) -> Option<Seq<char>> {
    if i + 1 < args.len() {
        Some(args[(i + 1) as int])
    } else {
        None
    }
}

/// What comes of the arguments of `compile` from `i` on, after those that were read.
pub open spec fn compile_args_from(args: Seq<Seq<char>>, i: nat, read: CompileArgs) -> Result<
    CompileCommandView,
    Seq<char>,
>
    decreases args.len() + 1 - i,
{
    if i >= args.len() {
        match (read.program, read.output) {
            (None, _) => Err("missing required `--program /path/to/rules` argument"@),
            (_, None) => Err("missing required `--output /path/to/compiled.json` argument"@),
            (Some(program), Some(output)) => Ok(
                CompileCommandView::Compile {
                    program,
                    output,
                    roots: read.roots,
                    provisions: read.provisions,
                },
            ),
        }
    } else {
        let arg = args[i as int];
        let next = next_arg(args, i);
        if arg == "--program"@ {
            compile_args_from(args, i + 2, CompileArgs { program: next, ..read })
        } else if arg == "--output"@ {
            compile_args_from(args, i + 2, CompileArgs { output: next, ..read })
        } else if arg == "--rulespec-root"@ {
            match next {
                Some(path) => compile_args_from(
                    args,
                    i + 2,
                    CompileArgs { roots: read.roots.push(path), ..read },
                ),
                None => Err("`--rulespec-root` requires a path argument"@),
            }
        } else if arg == "--corpus-provisions"@ {
            match next {
                Some(path) => compile_args_from(
                    args,
                    i + 2,
                    CompileArgs { provisions: read.provisions.push(path), ..read },
                ),
                None => Err("`--corpus-provisions` requires a path argument"@),
            }
        } else if arg == "--help"@ || arg == "-h"@ {
            Ok(CompileCommandView::Help)
        } else {
            Err("unknown compile argument `"@ + arg + "`\n"@ + COMPILE_USAGE@)
        }
    }
}

pub open spec fn compile_outcome(r: Result<CompileCommand, String>) -> Result<
    CompileCommandView,
    Seq<char>,
> {
    match r {
        Ok(CompileCommand::Help) => Ok(CompileCommandView::Help),
        Ok(CompileCommand::Compile { program, output, rulespec_roots, corpus_provisions }) => Ok(
            CompileCommandView::Compile {
                program: program@,
                output: output@,
                roots: texts(rulespec_roots@),
                provisions: texts(corpus_provisions@),
            },
        ),
        Err(message) => Err(message@),
    }
}

pub open spec fn no_compile_args() -> CompileArgs {
    CompileArgs { program: None, output: None, roots: Seq::empty(), provisions: Seq::empty() }
}

/// The argument behind the one at `i`.
fn argument_behind(args: &Vec<String>, i: usize) -> (r: Option<String>)
    requires
        i < args@.len(),
    ensures
        opt_text(r) == next_arg(texts(args@), i as nat),
{
    let ghost all = texts(args@);
    assert(all.len() == args@.len());
    if args.len() - i > 1 {
        assert(all[i + 1] == args@[i + 1]@);
        Some(args[i + 1].clone())
    } else {
        None
    }
}

/// Reads the arguments of `compile` and `compile-composed`.
pub fn parse_compile_args(args: &Vec<String>) -> (r: Result<CompileCommand, String>)
    ensures
        compile_outcome(r) == compile_args_from(texts(args@), 0, no_compile_args()),
{
    let ghost all = texts(args@);
    let mut program: Option<String> = None;
    let mut output: Option<String> = None;
    let mut rulespec_roots: Vec<String> = Vec::new();
    let mut corpus_provisions: Vec<String> = Vec::new();
    let mut i: usize = 0;
    proof {
        assert(all.len() == args@.len());
        assert(texts(rulespec_roots@) =~= Seq::empty());
        assert(texts(corpus_provisions@) =~= Seq::empty());
    }
    while i < args.len()
        invariant
            all == texts(args@),
            all.len() == args@.len(),
            compile_args_from(all, 0, no_compile_args()) == compile_args_from(
                all,
                i as nat,
                CompileArgs {
                    program: opt_text(program),
                    output: opt_text(output),
                    roots: texts(rulespec_roots@),
                    provisions: texts(corpus_provisions@),
                },
            ),
        decreases args@.len() - i,
    {
        let arg = args[i].as_str();
        assert(all[i as int] == arg@);
        let next = argument_behind(args, i);
        let left = args.len() - i;
        if same(arg, "--program") {
            program = next;
        } else if same(arg, "--output") {
            output = next;
        } else if same(arg, "--rulespec-root") {
            match next {
                Some(path) => {
                    let ghost before = rulespec_roots@;
                    rulespec_roots.push(path);
                    assert(texts(rulespec_roots@) =~= texts(before).push(path@));
                },
                None => {
                    return Err(owned("`--rulespec-root` requires a path argument"));
                },
            }
        } else if same(arg, "--corpus-provisions") {
            match next {
                Some(path) => {
                    let ghost before = corpus_provisions@;
                    corpus_provisions.push(path);
                    assert(texts(corpus_provisions@) =~= texts(before).push(path@));
                },
                None => {
                    return Err(owned("`--corpus-provisions` requires a path argument"));
                },
            }
        } else if same(arg, "--help") || same(arg, "-h") {
            return Ok(CompileCommand::Help);
        } else {
            let mut message = owned("unknown compile argument `");
            message.append(arg);
            message.append("`\n");
            message.append(COMPILE_USAGE);
            return Err(message);
        }
        if left < 2 {
            proof {
                assert(compile_args_from(
                    all,
                    (i + 2) as nat,
                    CompileArgs {
                        program: opt_text(program),
                        output: opt_text(output),
                        roots: texts(rulespec_roots@),
                        provisions: texts(corpus_provisions@),
                    },
                ) == compile_args_from(
                    all,
                    all.len(),
                    CompileArgs {
                        program: opt_text(program),
                        output: opt_text(output),
                        roots: texts(rulespec_roots@),
                        provisions: texts(corpus_provisions@),
                    },
                ));
            }
            i = args.len();
        } else {
            i = i + 2;
        }
    }
    match (program, output) {
        (None, _) => Err(owned("missing required `--program /path/to/rules` argument")),
        (_, None) => Err(owned("missing required `--output /path/to/compiled.json` argument")),
        (Some(program), Some(output)) => Ok(
            CompileCommand::Compile { program, output, rulespec_roots, corpus_provisions },
        ),
    }
}

/// What comes of the arguments of `run-compiled` from `i` on: the artifact's path.
pub open spec fn run_args_from(args: Seq<Seq<char>>, i: nat, artifact: Option<Seq<char>>) -> Result<
    Seq<char>,
    Seq<char>,
>
    decreases args.len() + 1 - i,
{
    if i >= args.len() {
        match artifact {
            Some(path) => Ok(path),
            None => Err("missing required `--artifact /path/to/compiled.json` argument"@),
        }
    } else if args[i as int] == "--artifact"@ {
        run_args_from(args, i + 2, next_arg(args, i))
    } else {
        Err("unknown run-compiled argument `"@ + args[i as int] + "`"@)
    }
}

/// Reads the arguments of `run-compiled`.
pub fn parse_run_compiled_args(args: &Vec<String>) -> (r: Result<String, String>)
    ensures
        text_outcome(r) == run_args_from(texts(args@), 0, None),
{
    let ghost all = texts(args@);
    let mut artifact: Option<String> = None;
    let mut i: usize = 0;
    assert(all.len() == args@.len());
    while i < args.len()
        invariant
            all == texts(args@),
            all.len() == args@.len(),
            run_args_from(all, 0, None) == run_args_from(all, i as nat, opt_text(artifact)),
        decreases args@.len() - i,
    {
        let arg = args[i].as_str();
        assert(all[i as int] == arg@);
        if !same(arg, "--artifact") {
            let mut message = owned("unknown run-compiled argument `");
            message.append(arg);
            message.append("`");
            return Err(message);
        }
        artifact = argument_behind(args, i);
        if args.len() - i < 2 {
            proof {
                assert(run_args_from(all, (i + 2) as nat, opt_text(artifact)) == run_args_from(
                    all,
                    all.len(),
                    opt_text(artifact),
                ));
            }
            i = args.len();
        } else {
            i = i + 2;
        }
    }
    match artifact {
        Some(path) => Ok(path),
        None => Err(owned("missing required `--artifact /path/to/compiled.json` argument")),
    }
}

/// The texts between commas, without the white space around them.
pub open spec fn comma_parts(s: Seq<char>) -> Seq<Seq<char>>
    decreases s.len(),
    via comma_parts_shrink
{
    match split_at(s, ',') {
        Some((part, rest)) => seq![trim_end(trim_start(part))] + comma_parts(rest),
        None => seq![trim_end(trim_start(s))],
    }
}

#[via_fn]
proof fn comma_parts_shrink(s: Seq<char>) {
    comma_is_inside(s, 0);
}

proof fn comma_is_inside(s: Seq<char>, from: nat)
    ensures
        crate::catalog::char_from(s, ',', from) matches Some(i) ==> i < s.len(),
    decreases s.len() - from,
{
    if from < s.len() && s[from as int] != ',' {
        comma_is_inside(s, from + 1);
    }
}

fn trimmed_text(s: &str) -> (r: String)
    ensures
        r@ == trim_end(trim_start(s@)),
{
    let chars = chars_of(s);
    let from = white_before(&chars, 0, chars.len());
    let to = white_behind(&chars, from, chars.len());
    assert(chars@.subrange(0, chars@.len() as int) =~= s@);
    text_between(&chars, from, to)
}

fn split_commas(s: &str) -> (r: Vec<String>)
    ensures
        texts(r@) == comma_parts(s@),
{
    let mut parts: Vec<String> = Vec::new();
    let mut rest: &str = s;
    assert(texts(parts@) + comma_parts(rest@) =~= comma_parts(s@));
    loop
        invariant_except_break
            texts(parts@) + comma_parts(rest@) == comma_parts(s@),
        ensures
            texts(parts@) == comma_parts(s@),
        decreases rest@.len(),
    {
        let ghost before = texts(parts@);
        match split_once(rest, ',') {
            Some((part, behind)) => {
                proof {
                    comma_is_inside(rest@, 0);
                }
                let text = trimmed_text(part);
                parts.push(text);
                assert(texts(parts@) =~= before.push(text@));
                assert(texts(parts@) + comma_parts(behind@) =~= before + comma_parts(rest@));
                rest = behind;
            },
            None => {
                let text = trimmed_text(rest);
                parts.push(text);
                assert(texts(parts@) =~= before.push(text@));
                assert(texts(parts@) =~= before + comma_parts(rest@));
                break ;
            },
        }
    }
    parts
}

/// The relation and kinds of an override `<relation>=<Kind>,<Kind>`: both are there, and no
/// kind is empty.
pub open spec fn override_parts(value: Seq<char>) -> Option<(Seq<char>, Seq<Seq<char>>)> {
    match split_at(value, '=') {
        None => None,
        Some((relation, kinds)) => {
            let list = comma_parts(kinds);
            if relation.len() == 0 || exists|i: int|
                0 <= i < list.len() && (#[trigger] list[i]).len() == 0 {
                None
            } else {
                Some((relation, list))
            }
        },
    }
}

/// Reads an override `<relation>=<Kind>,<Kind>`.
pub fn parse_relation_entities(value: &str) -> (r: Result<(String, Vec<String>), String>)
    ensures
        match override_parts(value@) {
            Some((relation, kinds)) => match r {
                Ok((name, list)) => name@ == relation && texts(list@) == kinds,
                Err(_) => false,
            },
            None => match r {
                Err(message) => message@
                    == "--relation-entities expects <relation>=<Kind>,<Kind>, got `"@ + value@
                    + "`"@,
                Ok(_) => false,
            },
        },
{
    let mut message = owned("--relation-entities expects <relation>=<Kind>,<Kind>, got `");
    message.append(value);
    message.append("`");
    let (relation, kinds) = match split_once(value, '=') {
        Some(parts) => parts,
        None => {
            return Err(message);
        },
    };
    let list = split_commas(kinds);
    let ghost all = comma_parts(kinds@);
    assert(list@.len() == texts(list@).len());
    if relation.unicode_len() == 0 {
        return Err(message);
    }
    let mut i: usize = 0;
    while i < list.len()
        invariant
            i <= list@.len(),
            all == texts(list@),
            all == comma_parts(kinds@),
            split_at(value@, '=') == Some((relation@, kinds@)),
            forall|j: int| 0 <= j < i ==> (#[trigger] all[j]).len() > 0,
            message@ == "--relation-entities expects <relation>=<Kind>,<Kind>, got `"@ + value@
                + "`"@,
        decreases list@.len() - i,
    {
        assert(all[i as int] == list@[i as int]@);
        if list[i].as_str().unicode_len() == 0 {
            return Err(message);
        }
        i = i + 1;
    }
    Ok((owned(relation), list))
}

/// What `migrate` is to do.
#[derive(Debug)]
pub enum MigrateCommand {
    Scan { json: bool, roots: Vec<String> },
    Apply { json: bool, write: bool, roots: Vec<String> },
    Artifact {
        artifact: String,
        output: Option<String>,
        overrides: Vec<RelationOverride>,
        json: bool,
    },
}

pub ghost enum MigrateView {
    Scan { json: bool, roots: Seq<Seq<char>> },
    Apply { json: bool, write: bool, roots: Seq<Seq<char>> },
    Artifact {
        artifact: Seq<char>,
        output: Option<Seq<char>>,
        overrides: Seq<(Seq<char>, Seq<Seq<char>>)>,
        json: bool,
    },
}

pub open spec fn override_views(v: Seq<RelationOverride>) -> Seq<(Seq<char>, Seq<Seq<char>>)> {
    v.map_values(|o: RelationOverride| (o.relation@, texts(o.kinds@)))
}

pub open spec fn migrate_outcome(r: Result<MigrateCommand, String>) -> Result<
    MigrateView,
    Seq<char>,
> {
    match r {
        Err(message) => Err(message@),
        Ok(MigrateCommand::Scan { json, roots }) => Ok(
            MigrateView::Scan { json, roots: texts(roots@) },
        ),
        Ok(MigrateCommand::Apply { json, write, roots }) => Ok(
            MigrateView::Apply { json, write, roots: texts(roots@) },
        ),
        Ok(MigrateCommand::Artifact { artifact, output, overrides, json }) => Ok(
            MigrateView::Artifact {
                artifact: artifact@,
                output: opt_text(output),
                overrides: override_views(overrides@),
                json,
            },
        ),
    }
}

pub open spec fn artifact_usage() -> Seq<char> {
    "usage: "@ + MIGRATE_ARTIFACT_USAGE@
}

/// What the arguments of `migrate artifact` have given so far.
pub ghost struct ArtifactArgs {
    pub artifact: Option<Seq<char>>,
    pub output: Option<Seq<char>>,
    pub overrides: Seq<(Seq<char>, Seq<Seq<char>>)>,
    pub json: bool,
}

/// Whether a relation has an override.
pub open spec fn is_overridden(
    overrides: Seq<(Seq<char>, Seq<Seq<char>>)>,
    relation: Seq<char>,
) -> bool {
    exists|i: int| 0 <= i < overrides.len() && (#[trigger] overrides[i]).0 == relation
}

/// What comes of the arguments of `migrate artifact` from `i` on.
pub open spec fn artifact_args_from(args: Seq<Seq<char>>, i: nat, given: ArtifactArgs) -> Result<
    MigrateView,
    Seq<char>,
>
    decreases args.len() + 1 - i,
{
    if i >= args.len() {
        match given.artifact {
            Some(artifact) => Ok(
                MigrateView::Artifact {
                    artifact,
                    output: given.output,
                    overrides: given.overrides,
                    json: given.json,
                },
            ),
            None => Err(artifact_usage()),
        }
    } else if args[i as int] == "--artifact"@ {
        artifact_args_from(
            args,
            i + 2,
            ArtifactArgs { artifact: next_arg(args, i), ..given },
        )
    } else if args[i as int] == "--output"@ {
        artifact_args_from(args, i + 2, ArtifactArgs { output: next_arg(args, i), ..given })
    } else if args[i as int] == "--json"@ {
        artifact_args_from(args, i + 1, ArtifactArgs { json: true, ..given })
    } else if args[i as int] == "--relation-entities"@ {
        match next_arg(args, i) {
            None => Err(artifact_usage()),
            Some(value) => match override_parts(value) {
                None => Err(
                    "--relation-entities expects <relation>=<Kind>,<Kind>, got `"@ + value + "`"@,
                ),
                Some((relation, kinds)) => if is_overridden(given.overrides, relation) {
                    Err("--relation-entities repeats relation `"@ + relation + "`"@)
                } else {
                    artifact_args_from(
                        args,
                        i + 2,
                        ArtifactArgs { overrides: given.overrides.push((relation, kinds)), ..given },
                    )
                },
            },
        }
    } else {
        Err(
            "unknown migrate artifact argument `"@ + args[i as int] + "`\n\n"@
                + artifact_usage(),
        )
    }
}

fn artifact_usage_text() -> (r: String)
    ensures
        r@ == artifact_usage(),
{
    let mut usage = owned("usage: ");
    usage.append(MIGRATE_ARTIFACT_USAGE);
    usage
}

fn has_override(overrides: &Vec<RelationOverride>, relation: &str) -> (r: bool)
    ensures
        r == is_overridden(override_views(overrides@), relation@),
{
    let ghost views = override_views(overrides@);
    let mut i: usize = 0;
    while i < overrides.len()
        invariant
            i <= overrides@.len(),
            views == override_views(overrides@),
            forall|j: int| 0 <= j < i ==> (#[trigger] views[j]).0 != relation@,
        decreases overrides@.len() - i,
    {
        assert(views[i as int].0 == overrides@[i as int].relation@);
        if same(overrides[i].relation.as_str(), relation) {
            return true;
        }
        i = i + 1;
    }
    false
}

proof fn artifact_args_end(args: Seq<Seq<char>>, i: nat, given: ArtifactArgs)
    requires
        i >= args.len(),
    ensures
        artifact_args_from(args, i, given) == artifact_args_from(args, args.len(), given),
{
}

/// Reads the arguments of `migrate artifact`, from `from` on.
fn parse_migrate_artifact_args(args: &Vec<String>, from: usize) -> (r: Result<
    MigrateCommand,
    String,
>)
    requires
        from <= args@.len(),
    ensures
        migrate_outcome(r) == artifact_args_from(
            texts(args@),
            from as nat,
            ArtifactArgs { artifact: None, output: None, overrides: Seq::empty(), json: false },
        ),
{
    let ghost all = texts(args@);
    let ghost none = ArtifactArgs {
        artifact: None,
        output: None,
        overrides: Seq::empty(),
        json: false,
    };
    let mut artifact: Option<String> = None;
    let mut output: Option<String> = None;
    let mut overrides: Vec<RelationOverride> = Vec::new();
    let mut json = false;
    let mut i: usize = from;
    let ghost mut given = none;
    assert(all.len() == args@.len());
    assert(override_views(overrides@) =~= Seq::empty());
    while i < args.len()
        invariant
            all == texts(args@),
            all.len() == args@.len(),
            i <= args@.len(),
            none == (ArtifactArgs {
                artifact: None,
                output: None,
                overrides: Seq::empty(),
                json: false,
            }),
            given == (ArtifactArgs {
                artifact: opt_text(artifact),
                output: opt_text(output),
                overrides: override_views(overrides@),
                json,
            }),
            artifact_args_from(all, from as nat, none) == artifact_args_from(all, i as nat, given),
        decreases args@.len() - i,
    {
        let arg = args[i].as_str();
        assert(all[i as int] == arg@);
        let mut step: usize = 2;
        if same(arg, "--artifact") {
            artifact = argument_behind(args, i);
            proof {
                given = ArtifactArgs { artifact: next_arg(all, i as nat), ..given };
            }
        } else if same(arg, "--output") {
            output = argument_behind(args, i);
            proof {
                given = ArtifactArgs { output: next_arg(all, i as nat), ..given };
            }
        } else if same(arg, "--json") {
            json = true;
            step = 1;
            proof {
                given = ArtifactArgs { json: true, ..given };
            }
        } else if same(arg, "--relation-entities") {
            let value = match argument_behind(args, i) {
                Some(value) => value,
                None => {
                    return Err(artifact_usage_text());
                },
            };
            match parse_relation_entities(value.as_str()) {
                Err(message) => {
                    return Err(message);
                },
                Ok((relation, kinds)) => {
                    if has_override(&overrides, relation.as_str()) {
                        let mut message = owned("--relation-entities repeats relation `");
                        message.append(relation.as_str());
                        message.append("`");
                        return Err(message);
                    }
                    let ghost before = overrides@;
                    let item = RelationOverride { relation, kinds };
                    overrides.push(item);
                    proof {
                        assert(override_views(overrides@) =~= override_views(before).push(
                            (item.relation@, texts(item.kinds@)),
                        ));
                        given = ArtifactArgs { overrides: override_views(overrides@), ..given };
                    }
                },
            }
        } else {
            let mut message = owned("unknown migrate artifact argument `");
            message.append(arg);
            message.append("`\n\n");
            message.append(artifact_usage_text().as_str());
            return Err(message);
        }
        proof {
            assert(artifact_args_from(all, from as nat, none) == artifact_args_from(
                all,
                (i + step) as nat,
                given,
            ));
        }
        if args.len() - i <= step {
            proof {
                artifact_args_end(all, (i + step) as nat, given);
            }
            i = args.len();
        } else {
            i = i + step;
        }
    }
    match artifact {
        Some(artifact) => Ok(MigrateCommand::Artifact { artifact, output, overrides, json }),
        None => Err(artifact_usage_text()),
    }
}

/// The arguments from `i` to `n` that are none of the flags.
pub open spec fn plain_args(args: Seq<Seq<char>>, i: nat, n: nat, flags: Seq<Seq<char>>) -> Seq<
    Seq<char>,
>
    decreases n,
{
    if n <= i || n > args.len() {
        Seq::empty()
    } else {
        let before = plain_args(args, i, (n - 1) as nat, flags);
        if flags.contains(args[n - 1]) {
            before
        } else {
            before.push(args[n - 1])
        }
    }
}

/// Whether an argument from `i` to `n` is the text.
pub open spec fn has_arg(args: Seq<Seq<char>>, i: nat, n: nat, text: Seq<char>) -> bool {
    exists|k: int| i <= k < n && #[trigger] args[k] == text
}

/// What comes of the arguments of `migrate`.
pub open spec fn migrate_args(args: Seq<Seq<char>>) -> Result<MigrateView, Seq<char>> {
    if args.len() == 0 {
        Err(
            "usage: migrate scan [--json] <file-or-dir>... | migrate apply [--json] [--write] <file-or-dir>... | "@
                + MIGRATE_ARTIFACT_USAGE@,
        )
    } else if args[0] == "scan"@ {
        let roots = plain_args(args, 1, args.len(), seq!["--json"@]);
        if roots.len() == 0 {
            Err("usage: migrate scan [--json] <file-or-dir>..."@)
        } else {
            Ok(MigrateView::Scan { json: has_arg(args, 1, args.len(), "--json"@), roots })
        }
    } else if args[0] == "apply"@ {
        let roots = plain_args(args, 1, args.len(), seq!["--json"@, "--write"@]);
        if roots.len() == 0 {
            Err("usage: migrate apply [--json] [--write] <file-or-dir>..."@)
        } else {
            Ok(
                MigrateView::Apply {
                    json: has_arg(args, 1, args.len(), "--json"@),
                    write: has_arg(args, 1, args.len(), "--write"@),
                    roots,
                },
            )
        }
    } else if args[0] == "artifact"@ {
        artifact_args_from(
            args,
            1,
            ArtifactArgs { artifact: None, output: None, overrides: Seq::empty(), json: false },
        )
    } else {
        Err("unknown migrate subcommand `"@ + args[0] + "`"@)
    }
}

/// The flags and roots among the arguments behind the first.
fn flags_and_roots(args: &Vec<String>, takes_write: bool) -> (r: (bool, bool, Vec<String>))
    requires
        args@.len() > 0,
    ensures
        r.0 == has_arg(texts(args@), 1, args@.len(), "--json"@),
        takes_write ==> r.1 == has_arg(texts(args@), 1, args@.len(), "--write"@),
        texts(r.2@) == plain_args(
            texts(args@),
            1,
            args@.len(),
            if takes_write {
                seq!["--json"@, "--write"@]
            } else {
                seq!["--json"@]
            },
        ),
{
    let ghost all = texts(args@);
    let ghost flags = if takes_write {
        seq!["--json"@, "--write"@]
    } else {
        seq!["--json"@]
    };
    let mut json = false;
    let mut write = false;
    let mut roots: Vec<String> = Vec::new();
    let mut i: usize = 1;
    assert(all.len() == args@.len());
    assert(texts(roots@) =~= plain_args(all, 1, 1, flags));
    while i < args.len()
        invariant
            1 <= i <= args@.len(),
            all == texts(args@),
            all.len() == args@.len(),
            flags == if takes_write {
                seq!["--json"@, "--write"@]
            } else {
                seq!["--json"@]
            },
            json == has_arg(all, 1, i as nat, "--json"@),
            takes_write ==> write == has_arg(all, 1, i as nat, "--write"@),
            texts(roots@) == plain_args(all, 1, i as nat, flags),
        decreases args@.len() - i,
    {
        let arg = args[i].as_str();
        assert(all[i as int] == arg@);
        let ghost before = roots@;
        proof {
            reveal_strlit("--json");
            reveal_strlit("--write");
            assert("--json"@.len() != "--write"@.len());
            assert(flags[0] == "--json"@);
            assert(takes_write ==> flags[1] == "--write"@);
            has_arg_grows(all, i as nat, "--json"@);
            has_arg_grows(all, i as nat, "--write"@);
        }
        if same(arg, "--json") {
            assert(flags.contains(arg@));
            json = true;
        } else if takes_write && same(arg, "--write") {
            assert(flags.contains(arg@));
            write = true;
        } else {
            assert(!flags.contains(arg@));
            roots.push(args[i].clone());
            assert(texts(roots@) =~= texts(before).push(arg@));
        }
        i = i + 1;
    }
    (json, write, roots)
}

proof fn has_arg_grows(args: Seq<Seq<char>>, n: nat, text: Seq<char>)
    requires
        1 <= n < args.len(),
    ensures
        has_arg(args, 1, n + 1, text) == (has_arg(args, 1, n, text) || args[n as int] == text),
{
    if has_arg(args, 1, n, text) {
        let k = choose|k: int| 1 <= k < n && #[trigger] args[k] == text;
        assert(1 <= k < n + 1 && args[k] == text);
    }
    if has_arg(args, 1, n + 1, text) {
        let k = choose|k: int| 1 <= k < n + 1 && #[trigger] args[k] == text;
        assert(k < n || k == n);
    }
}

/// Reads the arguments of `migrate`.
pub fn parse_migrate_args(args: &Vec<String>) -> (r: Result<MigrateCommand, String>)
    ensures
        migrate_outcome(r) == migrate_args(texts(args@)),
{
    assert(texts(args@).len() == args@.len());
    if args.len() == 0 {
        let mut usage = owned(
            "usage: migrate scan [--json] <file-or-dir>... | migrate apply [--json] [--write] <file-or-dir>... | ",
        );
        usage.append(MIGRATE_ARTIFACT_USAGE);
        return Err(usage);
    }
    let name = args[0].as_str();
    assert(texts(args@)[0] == name@);
    if same(name, "scan") {
        let (json, _, roots) = flags_and_roots(args, false);
        assert(roots@.len() == texts(roots@).len());
        if roots.len() == 0 {
            return Err(owned("usage: migrate scan [--json] <file-or-dir>..."));
        }
        Ok(MigrateCommand::Scan { json, roots })
    } else if same(name, "apply") {
        let (json, write, roots) = flags_and_roots(args, true);
        assert(roots@.len() == texts(roots@).len());
        if roots.len() == 0 {
            return Err(owned("usage: migrate apply [--json] [--write] <file-or-dir>..."));
        }
        Ok(MigrateCommand::Apply { json, write, roots })
    } else if same(name, "artifact") {
        parse_migrate_artifact_args(args, 1)
    } else {
        let mut message = owned("unknown migrate subcommand `");
        message.append(name);
        message.append("`");
        Err(message)
    }
}

} // verus!
