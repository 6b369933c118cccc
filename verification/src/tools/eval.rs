//! Ad-hoc code execution.
//!
//! This is the most dangerous tool in the binary: it is denied unless
//! `tools.allow_code_execution` is set, a script gets a private directory of its
//! own, what it prints is capped, and it is killed when its deadline passes.

use vstd::prelude::*;

use super::args::{opt_string, opt_string_arg, string, string_arg, u64_arg, u64_or};
use super::context::{gate, ToolContext, ToolContextView, CODE_EXECUTION_DENIED};
use super::path::{join_path, path_in};
use super::schema::{
    choice, choice_schema, needs, object_schema, property, property_schema, schema2, takes,
};
use crate::config::model::dup_texts;
use crate::error::{tool_result, ToolError, ToolErrorView, ToolResult};
use crate::json::{Json, JsonView, json_integer, json_texts};
use crate::protocol::mcp::{CallToolResult, CallToolResultView, Tool, ToolView};
use crate::text::{
    cat2, cat3, cat4, debug, debug_text, five, join, joined, listed, lowercase, lowercase_text,
    none, one, six, three, trim, trimmed, two, views,
};
use crate::time::Duration;

verus! {

/// The tool that runs scripts.
pub struct EvalTools;

/// Truncation point for each of stdout and stderr.
pub const MAX_OUTPUT_BYTES: usize = 262144;

/// How long a script may run where the caller does not say, in seconds.
pub const DEFAULT_TIMEOUT_SECONDS: u64 = 30;

/// How long a script may run at most, in seconds.
pub const MAX_TIMEOUT_SECONDS: u64 = 600;

/// The project file that a C# program is run with.
pub const CSPROJ: &'static str = "<Project Sdk=\"Microsoft.NET.Sdk\">
  <PropertyGroup>
    <OutputType>Exe</OutputType>
    <TargetFramework>net8.0</TargetFramework>
    <ImplicitUsings>enable</ImplicitUsings>
    <Nullable>enable</Nullable>
  </PropertyGroup>
</Project>";

// ---------------------------------------------------------------------------
// Runtimes

/// An interpreter that the tool knows how to drive.
pub struct Runtime {
    /// Canonical language name and its accepted aliases.
    pub names: Vec<String>,
    pub extension: String,
    pub program: String,
    pub leading_args: Vec<String>,
}

/// What a [`Runtime`] is.
pub struct RuntimeView {
    pub names: Seq<Seq<char>>,
    pub extension: Seq<char>,
    pub program: Seq<char>,
    pub leading_args: Seq<Seq<char>>,
}

impl View for Runtime {
    type V = RuntimeView;

    open spec fn view(&self) -> RuntimeView {
        RuntimeView {
            names: views(self.names@),
            extension: self.extension@,
            program: self.program@,
            leading_args: views(self.leading_args@),
        }
    }
}

/// One row of the table of runtimes.
pub open spec fn runtime_view(
    names: Seq<Seq<char>>,
    extension: Seq<char>,
    program: Seq<char>,
    leading_args: Seq<Seq<char>>,
) -> RuntimeView {
    RuntimeView { names, extension, program, leading_args }
}

/// The table of runtimes.
pub open spec fn runtime_table() -> Seq<RuntimeView> {
    seq![
        runtime_view(seq!["python"@, "py"@, "python3"@], "py"@, "python3"@, seq![]),
        runtime_view(seq!["node"@, "js"@, "javascript"@], "js"@, "node"@, seq![]),
        runtime_view(seq!["bash"@], "sh"@, "bash"@, seq![]),
        runtime_view(seq!["sh"@, "shell"@], "sh"@, "sh"@, seq![]),
        runtime_view(seq!["ruby"@, "rb"@], "rb"@, "ruby"@, seq![]),
        runtime_view(seq!["perl"@, "pl"@], "pl"@, "perl"@, seq![]),
        runtime_view(seq!["php"@], "php"@, "php"@, seq![]),
        runtime_view(seq!["lua"@], "lua"@, "lua"@, seq![]),
        runtime_view(seq!["go"@], "go"@, "go"@, seq!["run"@]),
        runtime_view(seq!["typescript"@, "ts"@], "ts"@, "tsx"@, seq![]),
        runtime_view(seq!["rust"@, "rs"@], "rs"@, "rustc"@, seq![]),
        runtime_view(seq!["csharp"@, "cs"@, "dotnet"@], "cs"@, "dotnet"@, seq![]),
        runtime_view(seq!["java"@], "java"@, "java"@, seq![]),
        runtime_view(seq!["c"@], "c"@, "gcc"@, seq![]),
        runtime_view(seq!["cpp"@, "c++"@, "cxx"@], "cpp"@, "g++"@, seq![]),
        runtime_view(seq!["deno"@], "ts"@, "deno"@, seq!["run"@, "-A"@]),
        runtime_view(seq!["bun"@], "ts"@, "bun"@, seq!["run"@]),
        runtime_view(seq!["awk"@], "awk"@, "awk"@, seq!["-f"@]),
        runtime_view(seq!["tcl"@], "tcl"@, "tclsh"@, seq![]),
        runtime_view(seq!["r"@], "R"@, "Rscript"@, seq![]),
        runtime_view(seq!["julia"@, "jl"@], "jl"@, "julia"@, seq![]),
        runtime_view(seq!["elixir"@, "exs"@], "exs"@, "elixir"@, seq![]),
        runtime_view(seq!["powershell"@, "pwsh"@], "ps1"@, "pwsh"@, seq!["-NoProfile"@, "-File"@]),
        runtime_view(seq!["zig"@], "zig"@, "zig"@, seq!["run"@]),
        runtime_view(seq!["kotlin"@, "kt"@, "kts"@], "kts"@, "kotlinc"@, seq!["-script"@]),
        runtime_view(seq!["swift"@], "swift"@, "swift"@, seq![]),
        runtime_view(seq!["scala"@], "sc"@, "scala"@, seq![]),
        runtime_view(seq!["dart"@], "dart"@, "dart"@, seq!["run"@]),
        runtime_view(seq!["haskell"@, "hs"@], "hs"@, "runghc"@, seq![]),
        runtime_view(seq!["ocaml"@, "ml"@], "ml"@, "ocaml"@, seq![]),
        runtime_view(seq!["fortran"@, "f90"@], "f90"@, "gfortran"@, seq![]),
    ]
}

fn make_runtime(names: Vec<String>, extension: &str, program: &str, leading_args: Vec<String>) -> (r:
    Runtime)
    ensures
        r@ == runtime_view(views(names@), extension@, program@, views(leading_args@)),
{
    Runtime {
        names,
        extension: extension.to_owned(),
        program: program.to_owned(),
        leading_args,
    }
}

/// The table of runtimes.
pub fn runtimes() -> (r: Vec<Runtime>)
    ensures
        views(r@) == runtime_table(),
{
    let table: Vec<Runtime> = vec![
        make_runtime(three("python", "py", "python3"), "py", "python3", none()),
        make_runtime(three("node", "js", "javascript"), "js", "node", none()),
        make_runtime(one("bash"), "sh", "bash", none()),
        make_runtime(two("sh", "shell"), "sh", "sh", none()),
        make_runtime(two("ruby", "rb"), "rb", "ruby", none()),
        make_runtime(two("perl", "pl"), "pl", "perl", none()),
        make_runtime(one("php"), "php", "php", none()),
        make_runtime(one("lua"), "lua", "lua", none()),
        make_runtime(one("go"), "go", "go", one("run")),
        make_runtime(two("typescript", "ts"), "ts", "tsx", none()),
        make_runtime(two("rust", "rs"), "rs", "rustc", none()),
        make_runtime(three("csharp", "cs", "dotnet"), "cs", "dotnet", none()),
        make_runtime(one("java"), "java", "java", none()),
        make_runtime(one("c"), "c", "gcc", none()),
        make_runtime(three("cpp", "c++", "cxx"), "cpp", "g++", none()),
        make_runtime(one("deno"), "ts", "deno", two("run", "-A")),
        make_runtime(one("bun"), "ts", "bun", one("run")),
        make_runtime(one("awk"), "awk", "awk", one("-f")),
        make_runtime(one("tcl"), "tcl", "tclsh", none()),
        make_runtime(one("r"), "R", "Rscript", none()),
        make_runtime(two("julia", "jl"), "jl", "julia", none()),
        make_runtime(two("elixir", "exs"), "exs", "elixir", none()),
        make_runtime(two("powershell", "pwsh"), "ps1", "pwsh", two("-NoProfile", "-File")),
        make_runtime(one("zig"), "zig", "zig", one("run")),
        make_runtime(three("kotlin", "kt", "kts"), "kts", "kotlinc", one("-script")),
        make_runtime(one("swift"), "swift", "swift", none()),
        make_runtime(one("scala"), "sc", "scala", none()),
        make_runtime(one("dart"), "dart", "dart", one("run")),
        make_runtime(two("haskell", "hs"), "hs", "runghc", none()),
        make_runtime(two("ocaml", "ml"), "ml", "ocaml", none()),
        make_runtime(two("fortran", "f90"), "f90", "gfortran", none()),
    ];
    assert(views(table@) =~= runtime_table());
    table
}

/// The first runtime from position `i` on that goes by a name.
pub open spec fn runtime_named(table: Seq<RuntimeView>, wanted: Seq<char>, i: int) -> Option<int>
    decreases table.len() - i,
{
    if i < 0 || i >= table.len() {
        None
    } else if table[i].names.contains(wanted) {
        Some(i)
    } else {
        runtime_named(table, wanted, i + 1)
    }
}

/// The canonical names of runtimes.
pub open spec fn canonical_names(table: Seq<RuntimeView>) -> Seq<Seq<char>> {
    table.map_values(|r: RuntimeView| r.names[0])
}

/// All names of runtimes.
pub open spec fn all_names(table: Seq<RuntimeView>) -> Seq<Seq<char>>
    decreases table.len(),
{
    if table.len() == 0 {
        seq![]
    } else {
        all_names(table.drop_last()) + table.last().names
    }
}

/// The languages that are supported, by their canonical names.
pub open spec fn supported_languages() -> Seq<char> {
    joined(canonical_names(runtime_table()), ", "@)
}

/// The runtime that a caller means by a language, whatever its case and the
/// blanks around it.
pub open spec fn looked_up(language: Seq<char>) -> Result<RuntimeView, ToolErrorView> {
    match runtime_named(runtime_table(), lowercase_text(trimmed(language)), 0) {
        Some(i) => Ok(runtime_table()[i]),
        None => Err(
            ToolErrorView::InvalidArguments(
                "unsupported language "@ + debug_text(language) + "; supported: "@
                    + supported_languages(),
            ),
        ),
    }
}

proof fn lemma_named(table: Seq<RuntimeView>, wanted: Seq<char>, i: int)
    requires
        0 <= i,
    ensures
        match runtime_named(table, wanted, i) {
            Some(k) => i <= k < table.len() && table[k].names.contains(wanted),
            None => forall|k: int| i <= k < table.len() ==> !(#[trigger] table[k]).names.contains(
                wanted,
            ),
        },
    decreases table.len() - i,
{
    if i < table.len() && !table[i].names.contains(wanted) {
        lemma_named(table, wanted, i + 1);
    }
}

/// Every name in the table leads to a runtime that goes by it.
pub proof fn lemma_every_name_is_found(i: int, k: int)
    requires
        0 <= i < runtime_table().len(),
        0 <= k < runtime_table()[i].names.len(),
    ensures
        runtime_named(runtime_table(), runtime_table()[i].names[k], 0) matches Some(j) && 0 <= j <= i
            && runtime_table()[j].names.contains(runtime_table()[i].names[k]),
{
    let table = runtime_table();
    let wanted = table[i].names[k];
    lemma_named(table, wanted, 0);
    assert(table[i].names.contains(wanted));
    lemma_first_named(table, wanted, 0, i);
}

proof fn lemma_first_named(table: Seq<RuntimeView>, wanted: Seq<char>, from: int, i: int)
    requires
        0 <= from <= i < table.len(),
        table[i].names.contains(wanted),
    ensures
        runtime_named(table, wanted, from) matches Some(j) && from <= j <= i
            && table[j].names.contains(wanted),
    decreases i - from,
{
    if !table[from].names.contains(wanted) {
        lemma_first_named(table, wanted, from + 1, i);
    }
}

proof fn lemma_every_runtime_has_a_name()
    ensures
        forall|i: int|
            0 <= i < runtime_table().len() ==> (#[trigger] runtime_table()[i]).names.len() > 0,
{
}

fn first_names(table: &Vec<Runtime>) -> (r: Vec<String>)
    requires
        views(table@) == runtime_table(),
    ensures
        views(r@) == canonical_names(runtime_table()),
{
    let ghost all = runtime_table();
    let mut out: Vec<String> = Vec::new();
    let mut i: usize = 0;
    proof {
        lemma_every_runtime_has_a_name();
    }
    while i < table.len()
        invariant
            0 <= i <= table@.len(),
            all == views(table@),
            forall|k: int| 0 <= k < all.len() ==> (#[trigger] all[k]).names.len() > 0,
            out@.len() == i,
            forall|k: int| 0 <= k < i ==> (#[trigger] out@[k])@ == all[k].names[0],
        decreases table@.len() - i,
    {
        assert(all[i as int] == table@[i as int]@);
        assert(all[i as int].names.len() > 0);
        out.push(table[i].names[0].clone());
        i += 1;
    }
    assert(views(out@) =~= canonical_names(all));
    out
}

fn every_name(table: &Vec<Runtime>) -> (r: Vec<String>)
    ensures
        views(r@) == all_names(views(table@)),
{
    let ghost all = views(table@);
    let mut out: Vec<String> = Vec::new();
    let mut i: usize = 0;
    assert(all.take(0) =~= seq![]);
    assert(views(out@) =~= all_names(all.take(0)));
    while i < table.len()
        invariant
            0 <= i <= table@.len(),
            all == views(table@),
            views(out@) == all_names(all.take(i as int)),
        decreases table@.len() - i,
    {
        let names = &table[i].names;
        let ghost before = out@;
        let mut k: usize = 0;
        assert(views(before) + views(names@).take(0) =~= views(before));
        while k < names.len()
            invariant
                0 <= k <= names@.len(),
                views(out@) == views(before) + views(names@).take(k as int),
            decreases names@.len() - k,
        {
            let ghost middle = out@;
            out.push(names[k].clone());
            proof {
                assert(views(out@) =~= views(middle).push(names@[k as int]@));
                assert(views(names@).take(k + 1) =~= views(names@).take(k as int).push(
                    names@[k as int]@,
                ));
                assert(views(out@) =~= views(before) + views(names@).take(k + 1));
            }
            k += 1;
        }
        proof {
            assert(views(names@).take(k as int) =~= views(names@));
            assert(all.take(i + 1).drop_last() =~= all.take(i as int));
            assert(all.take(i + 1).last() == table@[i as int]@);
        }
        i += 1;
    }
    assert(all.take(i as int) =~= all);
    out
}

/// Finds the runtime that a caller means by a language.
pub fn lookup(language: &str) -> (r: ToolResult<Runtime>)
    ensures
        tool_result(r) == looked_up(language@),
{
    let wanted = lowercase(&trim(language));
    let mut table = runtimes();
    let ghost all = runtime_table();
    let mut i: usize = 0;
    while i < table.len()
        invariant
            0 <= i <= table@.len(),
            all == views(table@),
            all == runtime_table(),
            wanted@ == lowercase_text(trimmed(language@)),
            runtime_named(all, wanted@, 0) == runtime_named(all, wanted@, i as int),
        decreases table@.len() - i,
    {
        assert(all[i as int] == table@[i as int]@);
        if listed(&table[i].names, &wanted) {
            return Ok(table.swap_remove(i));
        }
        i += 1;
    }
    Err(
        ToolError::InvalidArguments(
            cat4(
                "unsupported language ",
                &debug(language),
                "; supported: ",
                &join(&first_names(&table), ", "),
            ),
        ),
    )
}

// ---------------------------------------------------------------------------
// The descriptor

/// What `eval_code` does.
pub open spec fn eval_description() -> Seq<char> {
    "Run a small script in a sandbox and capture stdout/stderr.\n\nSupported languages: "@
        + supported_languages()
        + "\n\nExecution is denied unless `tools.allow_code_execution = true` is set in configuration."@
}

/// The descriptor of `eval_code`: the names a language may go by are listed, so
/// that a client can reject any other before a call is dispatched.
pub open spec fn eval_tool() -> ToolView {
    ToolView::new(
        "eval_code"@,
        eval_description(),
        object_schema(
            JsonView::object().with(
                "language"@,
                choice_schema(
                    all_names(runtime_table()),
                    "One of: "@ + supported_languages(),
                ),
            ).with("code"@, property_schema("string"@, "Script body to execute"@)).with(
                "stdin"@,
                property_schema("string"@, "Optional text to feed to standard input"@),
            ).with(
                "timeout_seconds"@,
                property_schema(
                    "integer"@,
                    "Wall-clock timeout in seconds (default: 30, maximum: 600)"@,
                ),
            ),
            seq!["language"@, "code"@],
        ),
    )
}

impl EvalTools {
    /// What the group advertises.
    pub fn descriptors(&self) -> (r: Vec<Tool>)
        ensures
            views(r@) == seq![eval_tool()],
    {
        let table = runtimes();
        let languages = join(&first_names(&table), ", ");
        let description = cat3(
            "Run a small script in a sandbox and capture stdout/stderr.\n\nSupported languages: ",
            &languages,
            "\n\nExecution is denied unless `tools.allow_code_execution = true` is set in configuration.",
        );
        let eval = Tool::new(
            "eval_code",
            &description,
            schema2(
                Json::object().with(
                    "language",
                    choice(&every_name(&table), &cat2("One of: ", &languages)),
                ).with("code", property("string", "Script body to execute")).with(
                    "stdin",
                    property("string", "Optional text to feed to standard input"),
                ).with(
                    "timeout_seconds",
                    property(
                        "integer",
                        "Wall-clock timeout in seconds (default: 30, maximum: 600)",
                    ),
                ),
                "language",
                "code",
            ),
        );
        let tools: Vec<Tool> = vec![eval];
        assert(views(tools@) =~= seq![eval_tool()]);
        tools
    }
}

// ---------------------------------------------------------------------------
// What a call asks for

/// A script that is to be run.
pub struct Evaluation {
    pub runtime: Runtime,
    pub code: String,
    pub stdin: String,
    pub timeout: Duration,
}

/// What an [`Evaluation`] asks for; the timeout in milliseconds.
pub struct EvaluationView {
    pub runtime: RuntimeView,
    pub code: Seq<char>,
    pub stdin: Seq<char>,
    pub timeout: nat,
}

impl View for Evaluation {
    type V = EvaluationView;

    open spec fn view(&self) -> EvaluationView {
        EvaluationView {
            runtime: self.runtime@,
            code: self.code@,
            stdin: self.stdin@,
            timeout: self.timeout@,
        }
    }
}

/// How long a script may run: what was asked for, from one second to ten
/// minutes.
pub open spec fn allowed_seconds(asked: u64) -> u64 {
    if asked < 1 {
        1
    } else if asked > MAX_TIMEOUT_SECONDS {
        MAX_TIMEOUT_SECONDS
    } else {
        asked
    }
}

/// What a call of `eval_code` asks for; the permission comes first.
pub open spec fn evaluation_request(args: JsonView, ctx: ToolContextView) -> Result<
    EvaluationView,
    ToolErrorView,
> {
    match gate(ctx.policy.allow_code_execution, CODE_EXECUTION_DENIED@) {
        Err(err) => Err(err),
        Ok(_) => match string_arg(args, "language"@) {
            Err(err) => Err(err),
            Ok(language) => match looked_up(language) {
                Err(err) => Err(err),
                Ok(runtime) => match string_arg(args, "code"@) {
                    Err(err) => Err(err),
                    Ok(code) => match opt_string_arg(args, "stdin"@) {
                        Err(err) => Err(err),
                        Ok(stdin) => match u64_arg(
                            args,
                            "timeout_seconds"@,
                            DEFAULT_TIMEOUT_SECONDS,
                        ) {
                            Err(err) => Err(err),
                            Ok(asked) => Ok(
                                EvaluationView {
                                    runtime,
                                    code,
                                    stdin: match stdin {
                                        Some(text) => text,
                                        None => ""@,
                                    },
                                    timeout: 1000 * allowed_seconds(asked) as nat,
                                },
                            ),
                        },
                    },
                },
            },
        },
    }
}

/// Reads what a call asks for.
pub fn plan_evaluation(args: &Json, ctx: &ToolContext) -> (r: ToolResult<Evaluation>)
    ensures
        tool_result(r) == evaluation_request(args@, ctx@),
{
    match ctx.require_code_execution() {
        Ok(_) => {},
        Err(err) => return Err(err),
    }
    let language = match string(args, "language") {
        Ok(language) => language,
        Err(err) => return Err(err),
    };
    let runtime = match lookup(&language) {
        Ok(runtime) => runtime,
        Err(err) => return Err(err),
    };
    let code = match string(args, "code") {
        Ok(code) => code,
        Err(err) => return Err(err),
    };
    let stdin = match opt_string(args, "stdin") {
        Ok(Some(stdin)) => stdin,
        Ok(None) => "".to_owned(),
        Err(err) => return Err(err),
    };
    let asked: u64 = match u64_or(args, "timeout_seconds", DEFAULT_TIMEOUT_SECONDS) {
        Ok(asked) => asked,
        Err(err) => return Err(err),
    };
    let seconds: u64 = if asked < 1 {
        1
    } else if asked > MAX_TIMEOUT_SECONDS {
        MAX_TIMEOUT_SECONDS
    } else {
        asked
    };
    Ok(Evaluation { runtime, code, stdin, timeout: Duration::from_secs(seconds) })
}

// ---------------------------------------------------------------------------
// The command line

/// A command that runs a script, the files it needs beside the script, and the
/// name under which a failure to start it is reported.
pub struct CommandPlan {
    pub program: String,
    pub args: Vec<String>,
    pub project: Option<(String, String)>,
    pub backend: String,
}

/// What a [`CommandPlan`] runs.
pub struct CommandPlanView {
    pub program: Seq<char>,
    pub args: Seq<Seq<char>>,
    pub project: Option<(Seq<char>, Seq<char>)>,
    pub backend: Seq<char>,
}

impl View for CommandPlan {
    type V = CommandPlanView;

    open spec fn view(&self) -> CommandPlanView {
        CommandPlanView {
            program: self.program@,
            args: views(self.args@),
            project: match self.project {
                Some(file) => Some((file.0@, file.1@)),
                None => None,
            },
            backend: self.backend@,
        }
    }
}

/// The commands whose presence decides how a runtime is driven.
pub open spec fn probed_commands(runtime: RuntimeView) -> Seq<Seq<char>> {
    if runtime.names.contains("rust"@) {
        seq!["rust-script"@]
    } else if runtime.names.contains("csharp"@) {
        seq!["dotnet-script"@]
    } else if runtime.names.contains("c"@) {
        seq!["gcc"@, "clang"@]
    } else if runtime.names.contains("cpp"@) {
        seq!["g++"@, "clang++"@]
    } else {
        seq![]
    }
}

/// A command that compiles a script in a shell and runs what came out.
pub open spec fn compile_and_run(args: Seq<Seq<char>>, backend: Seq<char>) -> CommandPlanView {
    CommandPlanView { program: "sh"@, args, project: None, backend }
}

/// How a Rust program is run.
pub open spec fn rust_command(
    script: Seq<char>,
    workspace: Seq<char>,
    present: Seq<Seq<char>>,
) -> CommandPlanView {
    if present.contains("rust-script"@) {
        CommandPlanView {
            program: "rust-script"@,
            args: seq![script],
            project: None,
            backend: "rust-script"@,
        }
    } else {
        compile_and_run(
            seq![
                "-c"@,
                "rustc \"$1\" -o \"$2\" && exec \"$2\""@,
                "--"@,
                script,
                path_in(workspace, "main_bin"@),
            ],
            "rustc"@,
        )
    }
}

/// How a C# program is run.
pub open spec fn csharp_command(
    script: Seq<char>,
    workspace: Seq<char>,
    present: Seq<Seq<char>>,
) -> CommandPlanView {
    if present.contains("dotnet-script"@) {
        CommandPlanView {
            program: "dotnet-script"@,
            args: seq![script],
            project: None,
            backend: "dotnet-script"@,
        }
    } else {
        CommandPlanView {
            program: "dotnet"@,
            args: seq!["run"@, "--project"@, path_in(workspace, "main.csproj"@)],
            project: Some((path_in(workspace, "main.csproj"@), CSPROJ@)),
            backend: "dotnet"@,
        }
    }
}

/// The first of two commands that is present, or a third.
pub open spec fn preferred(
    present: Seq<Seq<char>>,
    first: Seq<char>,
    second: Seq<char>,
    otherwise: Seq<char>,
) -> Seq<char> {
    if present.contains(first) {
        first
    } else if present.contains(second) {
        second
    } else {
        otherwise
    }
}

/// How a C program is run.
pub open spec fn c_command(
    script: Seq<char>,
    workspace: Seq<char>,
    present: Seq<Seq<char>>,
) -> CommandPlanView {
    let compiler = preferred(present, "gcc"@, "clang"@, "cc"@);
    compile_and_run(
        seq![
            "-c"@,
            "\"$1\" \"$2\" -o \"$3\" && exec \"$3\""@,
            "--"@,
            compiler,
            script,
            path_in(workspace, "main_bin"@),
        ],
        compiler,
    )
}

/// How a C++ program is run.
pub open spec fn cpp_command(
    script: Seq<char>,
    workspace: Seq<char>,
    present: Seq<Seq<char>>,
) -> CommandPlanView {
    let compiler = preferred(present, "g++"@, "clang++"@, "c++"@);
    compile_and_run(
        seq![
            "-c"@,
            "\"$1\" -std=c++20 \"$2\" -o \"$3\" && exec \"$3\""@,
            "--"@,
            compiler,
            script,
            path_in(workspace, "main_bin"@),
        ],
        compiler,
    )
}

/// How a Fortran program is run.
pub open spec fn fortran_command(script: Seq<char>, workspace: Seq<char>) -> CommandPlanView {
    compile_and_run(
        seq![
            "-c"@,
            "gfortran \"$1\" -o \"$2\" && exec \"$2\""@,
            "--"@,
            script,
            path_in(workspace, "main_bin"@),
        ],
        "gfortran"@,
    )
}

/// How a script is run, given which of the probed commands are present.
pub open spec fn command_for(
    runtime: RuntimeView,
    script: Seq<char>,
    workspace: Seq<char>,
    present: Seq<Seq<char>>,
) -> CommandPlanView {
    if runtime.names.contains("rust"@) {
        rust_command(script, workspace, present)
    } else if runtime.names.contains("csharp"@) {
        csharp_command(script, workspace, present)
    } else if runtime.names.contains("c"@) {
        c_command(script, workspace, present)
    } else if runtime.names.contains("cpp"@) {
        cpp_command(script, workspace, present)
    } else if runtime.names.contains("fortran"@) {
        fortran_command(script, workspace)
    } else {
        CommandPlanView {
            program: runtime.program,
            args: runtime.leading_args.push(script),
            project: None,
            backend: runtime.program,
        }
    }
}

/// The commands whose presence decides how a runtime is driven.
pub fn probes(runtime: &Runtime) -> (r: Vec<String>)
    ensures
        views(r@) == probed_commands(runtime@),
{
    if listed(&runtime.names, "rust") {
        one("rust-script")
    } else if listed(&runtime.names, "csharp") {
        one("dotnet-script")
    } else if listed(&runtime.names, "c") {
        two("gcc", "clang")
    } else if listed(&runtime.names, "cpp") {
        two("g++", "clang++")
    } else {
        none()
    }
}

fn plan(program: &str, args: Vec<String>, backend: &str) -> (r: CommandPlan)
    ensures
        r@ == (CommandPlanView {
            program: program@,
            args: views(args@),
            project: None,
            backend: backend@,
        }),
{
    CommandPlan { program: program.to_owned(), args, project: None, backend: backend.to_owned() }
}

fn build_rust_command(script: &str, workspace: &str, present: &Vec<String>) -> (r: CommandPlan)
    ensures
        r@ == rust_command(script@, workspace@, views(present@)),
{
    if listed(present, "rust-script") {
        plan("rust-script", one(script), "rust-script")
    } else {
        plan(
            "sh",
            five(
                "-c",
                "rustc \"$1\" -o \"$2\" && exec \"$2\"",
                "--",
                script,
                &join_path(workspace, "main_bin"),
            ),
            "rustc",
        )
    }
}

fn build_csharp_command(script: &str, workspace: &str, present: &Vec<String>) -> (r: CommandPlan)
    ensures
        r@ == csharp_command(script@, workspace@, views(present@)),
{
    if listed(present, "dotnet-script") {
        plan("dotnet-script", one(script), "dotnet-script")
    } else {
        let csproj = join_path(workspace, "main.csproj");
        CommandPlan {
            program: "dotnet".to_owned(),
            args: three("run", "--project", &csproj),
            project: Some((csproj, CSPROJ.to_owned())),
            backend: "dotnet".to_owned(),
        }
    }
}

fn prefer<'a>(present: &Vec<String>, first: &'a str, second: &'a str, otherwise: &'a str) -> (r: &'a str)
    ensures
        r@ == preferred(views(present@), first@, second@, otherwise@),
{
    if listed(present, first) {
        first
    } else if listed(present, second) {
        second
    } else {
        otherwise
    }
}

fn build_c_command(script: &str, workspace: &str, present: &Vec<String>) -> (r: CommandPlan)
    ensures
        r@ == c_command(script@, workspace@, views(present@)),
{
    let compiler = prefer(present, "gcc", "clang", "cc");
    plan(
        "sh",
        six(
            "-c",
            "\"$1\" \"$2\" -o \"$3\" && exec \"$3\"",
            "--",
            compiler,
            script,
            &join_path(workspace, "main_bin"),
        ),
        compiler,
    )
}

fn build_cpp_command(script: &str, workspace: &str, present: &Vec<String>) -> (r: CommandPlan)
    ensures
        r@ == cpp_command(script@, workspace@, views(present@)),
{
    let compiler = prefer(present, "g++", "clang++", "c++");
    plan(
        "sh",
        six(
            "-c",
            "\"$1\" -std=c++20 \"$2\" -o \"$3\" && exec \"$3\"",
            "--",
            compiler,
            script,
            &join_path(workspace, "main_bin"),
        ),
        compiler,
    )
}

fn build_fortran_command(script: &str, workspace: &str) -> (r: CommandPlan)
    ensures
        r@ == fortran_command(script@, workspace@),
{
    plan(
        "sh",
        five(
            "-c",
            "gfortran \"$1\" -o \"$2\" && exec \"$2\"",
            "--",
            script,
            &join_path(workspace, "main_bin"),
        ),
        "gfortran",
    )
}

/// Works out how a script is run.
pub fn build_command(runtime: &Runtime, script: &str, workspace: &str, present: &Vec<String>) -> (r:
    CommandPlan)
    ensures
        r@ == command_for(runtime@, script@, workspace@, views(present@)),
{
    if listed(&runtime.names, "rust") {
        build_rust_command(script, workspace, present)
    } else if listed(&runtime.names, "csharp") {
        build_csharp_command(script, workspace, present)
    } else if listed(&runtime.names, "c") {
        build_c_command(script, workspace, present)
    } else if listed(&runtime.names, "cpp") {
        build_cpp_command(script, workspace, present)
    } else if listed(&runtime.names, "fortran") {
        build_fortran_command(script, workspace)
    } else {
        let mut args = dup_texts(&runtime.leading_args);
        let ghost before = args@;
        args.push(script.to_owned());
        assert(views(args@) =~= views(before).push(script@));
        plan(&runtime.program, args, &runtime.program)
    }
}

/// The file that a script is written to.
pub open spec fn script_path(runtime: RuntimeView, workspace: Seq<char>) -> Seq<char> {
    path_in(workspace, "main."@ + runtime.extension)
}

/// The file that a script is written to.
pub fn script_file(runtime: &Runtime, workspace: &str) -> (r: String)
    ensures
        r@ == script_path(runtime@, workspace@),
{
    join_path(workspace, &cat2("main.", &runtime.extension))
}

/// The variables that a script is run with, which keep what its runtime writes
/// inside its own directory.
pub open spec fn script_environment(workspace: Seq<char>) -> Seq<(Seq<char>, Seq<char>)> {
    seq![
        ("GOCACHE"@, path_in(workspace, "go-cache"@)),
        ("TMPDIR"@, workspace),
        ("DOTNET_CLI_HOME"@, workspace),
        ("NUGET_PACKAGES"@, path_in(workspace, "nuget"@)),
        ("DOTNET_NOLOGO"@, "1"@),
        ("DOTNET_CLI_TELEMETRY_OPTOUT"@, "1"@),
        ("DOTNET_SKIP_FIRST_TIME_EXPERIENCE"@, "1"@),
    ]
}

/// The variables that a script is run with.
pub fn environment(workspace: &str) -> (r: Vec<(String, String)>)
    ensures
        r@.map_values(|p: (String, String)| (p.0@, p.1@)) == script_environment(workspace@),
{
    let list: Vec<(String, String)> = vec![
        ("GOCACHE".to_owned(), join_path(workspace, "go-cache")),
        ("TMPDIR".to_owned(), workspace.to_owned()),
        ("DOTNET_CLI_HOME".to_owned(), workspace.to_owned()),
        ("NUGET_PACKAGES".to_owned(), join_path(workspace, "nuget")),
        ("DOTNET_NOLOGO".to_owned(), "1".to_owned()),
        ("DOTNET_CLI_TELEMETRY_OPTOUT".to_owned(), "1".to_owned()),
        ("DOTNET_SKIP_FIRST_TIME_EXPERIENCE".to_owned(), "1".to_owned()),
    ];
    assert(list@.map_values(|p: (String, String)| (p.0@, p.1@)) =~= script_environment(workspace@));
    list
}

// ---------------------------------------------------------------------------
// What a script printed

/// The front of what a script printed, and whether there was more.
pub struct Captured {
    bytes: Vec<u8>,
    truncated: bool,
}

/// What a [`Captured`] holds.
#[verifier::ext_equal]
pub struct CapturedView {
    pub bytes: Seq<u8>,
    pub truncated: bool,
}

impl View for Captured {
    type V = CapturedView;

    closed spec fn view(&self) -> CapturedView {
        CapturedView { bytes: self.bytes@, truncated: self.truncated }
    }
}

/// What is kept of everything that was printed: its front, up to the cap.
pub open spec fn capped(printed: Seq<u8>) -> CapturedView {
    if printed.len() <= MAX_OUTPUT_BYTES {
        CapturedView { bytes: printed, truncated: false }
    } else {
        CapturedView { bytes: printed.take(MAX_OUTPUT_BYTES as int), truncated: true }
    }
}

/// What is kept after one more piece was read.
pub open spec fn capture_step(state: CapturedView, piece: Seq<u8>) -> CapturedView {
    if state.bytes.len() >= MAX_OUTPUT_BYTES {
        CapturedView {
            bytes: state.bytes,
            truncated: state.truncated || piece.len() > 0,
        }
    } else {
        let room = MAX_OUTPUT_BYTES - state.bytes.len();
        CapturedView {
            bytes: state.bytes + if piece.len() <= room {
                piece
            } else {
                piece.take(room)
            },
            truncated: state.truncated || piece.len() > room,
        }
    }
}

/// Bytes as text, with what is not UTF-8 replaced.
pub uninterp spec fn lossy_text(bytes: Seq<u8>) -> Seq<char>;

/// `String::from_utf8_lossy`: a function of the bytes. Bytes that are UTF-8
/// become the text they write; what stands for the others is not stated.
#[verifier::external_body]
pub(crate) fn read_lossy(bytes: &Vec<u8>) -> (r: String)
    ensures
        r@ == lossy_text(bytes@),
        vstd::utf8::valid_utf8(bytes@) ==> r@ == vstd::utf8::decode_utf8(bytes@),
{
    String::from_utf8_lossy(bytes).into_owned()
}

impl Captured {
    /// Nothing printed yet.
    pub fn new() -> (r: Captured)
        ensures
            r@ == capped(seq![]),
    {
        let captured = Captured { bytes: Vec::new(), truncated: false };
        assert(captured@ =~= capped(seq![]));
        captured
    }

    /// Takes in one more piece, but stops storing beyond the cap, so a script
    /// that prints in a loop cannot exhaust memory.
    pub fn absorb(&mut self, piece: &Vec<u8>)
        ensures
            final(self)@ == capture_step(old(self)@, piece@),
    {
        if self.bytes.len() >= MAX_OUTPUT_BYTES {
            self.truncated = self.truncated || piece.len() > 0;
            return;
        }
        let room: usize = MAX_OUTPUT_BYTES - self.bytes.len();
        let taken: usize = if piece.len() <= room {
            piece.len()
        } else {
            room
        };
        let ghost start = self.bytes@;
        let ghost flag = self.truncated;
        let mut i: usize = 0;
        assert(start + piece@.take(0) =~= start);
        while i < taken
            invariant
                0 <= i <= taken <= piece@.len(),
                self.bytes@ == start + piece@.take(i as int),
                self.truncated == flag,
            decreases taken - i,
        {
            self.bytes.push(piece[i]);
            assert(start + piece@.take(i + 1) =~= (start + piece@.take(i as int)).push(
                piece@[i as int],
            ));
            i += 1;
        }
        self.truncated = self.truncated || piece.len() > room;
        proof {
            if piece@.len() <= room {
                assert(piece@.take(taken as int) =~= piece@);
            }
        }
    }

    /// What was kept, as text.
    pub fn text(&self) -> (r: String)
        ensures
            r@ == lossy_text(self@.bytes),
    {
        read_lossy(&self.bytes)
    }

    /// Whether something was left out.
    pub fn truncated(&self) -> (r: bool)
        ensures
            r == self@.truncated,
    {
        self.truncated
    }
}

/// What is kept does not depend on the pieces in which output arrives: it is the
/// front of all of it, and a cut is said exactly where there was one.
pub proof fn lemma_capture(printed: Seq<u8>, piece: Seq<u8>)
    ensures
        capture_step(capped(printed), piece) == capped(printed + piece),
{
    let all = printed + piece;
    if printed.len() >= MAX_OUTPUT_BYTES {
        if printed.len() == MAX_OUTPUT_BYTES {
            if piece.len() == 0 {
                assert(all =~= printed);
            } else {
                assert(all.take(MAX_OUTPUT_BYTES as int) =~= printed);
            }
        } else {
            assert(all.take(MAX_OUTPUT_BYTES as int) =~= printed.take(MAX_OUTPUT_BYTES as int));
        }
    } else {
        let room = MAX_OUTPUT_BYTES - printed.len();
        if piece.len() > room {
            assert(all.take(MAX_OUTPUT_BYTES as int) =~= printed + piece.take(room));
        }
    }
    assert(capture_step(capped(printed), piece) =~= capped(all));
}

// ---------------------------------------------------------------------------
// The answer

/// An exit code as JSON.
pub open spec fn exit_code_json(code: Option<i32>) -> JsonView {
    match code {
        Some(n) => json_integer(n as i64),
        None => JsonView::Null,
    }
}

/// What a script that ended is answered with: anything but exit code zero is a
/// failure.
pub open spec fn evaluation_result(
    language: Seq<char>,
    code: Option<i32>,
    stdout: CapturedView,
    stderr: CapturedView,
) -> CallToolResultView {
    let report = CallToolResultView::structured(
        JsonView::object().with("language"@, JsonView::Text(language)).with(
            "exit_code"@,
            exit_code_json(code),
        ).with("stdout"@, JsonView::Text(lossy_text(stdout.bytes))).with(
            "stderr"@,
            JsonView::Text(lossy_text(stderr.bytes)),
        ).with("stdout_truncated"@, JsonView::Bool(stdout.truncated)).with(
            "stderr_truncated"@,
            JsonView::Bool(stderr.truncated),
        ),
    );
    if code == Some(0i32) {
        report
    } else {
        CallToolResultView { is_error: Some(true), ..report }
    }
}

/// Answers a call whose script ended.
pub fn report_evaluation(
    language: &str,
    code: Option<i32>,
    stdout: &Captured,
    stderr: &Captured,
) -> (r: CallToolResult)
    ensures
        r@ == evaluation_result(language@, code, stdout@, stderr@),
{
    let (exit_code, failed) = match code {
        Some(n) => (Json::integer(n as i64), n != 0),
        None => (Json::Null, true),
    };
    let mut result = CallToolResult::structured(
        Json::object().with("language", Json::string(language)).with("exit_code", exit_code).with(
            "stdout",
            Json::string(&stdout.text()),
        ).with("stderr", Json::string(&stderr.text())).with(
            "stdout_truncated",
            Json::Bool(stdout.truncated),
        ).with("stderr_truncated", Json::Bool(stderr.truncated)),
    );
    if failed {
        result.is_error = Some(true);
    }
    result
}

/// The error for a script that did not end in time.
pub fn evaluation_timed_out(evaluation: &Evaluation) -> (r: ToolError)
    ensures
        r@ == (ToolErrorView::Timeout {
            tool: "eval_code"@,
            seconds: (evaluation@.timeout / 1000) as u64,
        }),
{
    ToolError::Timeout {
        tool: "eval_code".to_owned(),
        seconds: evaluation.timeout.as_secs(),
    }
}

/// The error for a command that could not be started.
pub fn evaluation_unavailable(backend: &str, reason: &str) -> (r: ToolError)
    ensures
        r@ == (ToolErrorView::Unavailable {
            backend: backend@,
            reason: "could not start execution: "@ + reason@,
        }),
{
    ToolError::Unavailable {
        backend: backend.to_owned(),
        reason: cat2("could not start execution: ", reason),
    }
}

/// Execution is denied unless the operator enabled it, whatever the arguments.
pub proof fn lemma_execution_denied(args: JsonView, ctx: ToolContextView)
    requires
        !ctx.policy.allow_code_execution,
    ensures
        evaluation_request(args, ctx) == Err::<EvaluationView, ToolErrorView>(
            ToolErrorView::Denied(CODE_EXECUTION_DENIED@),
        ),
{
}

/// Every script that is run has a deadline between one second and ten minutes.
pub proof fn lemma_deadline_bounded(args: JsonView, ctx: ToolContextView)
    requires
        evaluation_request(args, ctx) is Ok,
    ensures
        1_000 <= evaluation_request(args, ctx)->Ok_0.timeout <= 600_000,
{
}

/// An exit code other than zero is flagged as a failure, zero is not.
pub proof fn lemma_failure_follows_exit_code(
    language: Seq<char>,
    code: Option<i32>,
    stdout: CapturedView,
    stderr: CapturedView,
)
    ensures
        evaluation_result(language, code, stdout, stderr).is_failure() <==> code != Some(0i32),
{
}

/// Whether a runtime compiles a script before it runs it, or has a command of its
/// own for scripts.
pub open spec fn is_compiled(runtime: RuntimeView) -> bool {
    ||| runtime.names.contains("rust"@)
    ||| runtime.names.contains("csharp"@)
    ||| runtime.names.contains("c"@)
    ||| runtime.names.contains("cpp"@)
    ||| runtime.names.contains("fortran"@)
}

/// An interpreter is called with its leading arguments in their order and then the
/// script, and with nothing else.
pub proof fn lemma_interpreters_get_the_script_last(
    runtime: RuntimeView,
    script: Seq<char>,
    workspace: Seq<char>,
    present: Seq<Seq<char>>,
)
    requires
        !is_compiled(runtime),
    ensures
        ({
            let plan = command_for(runtime, script, workspace, present);
            &&& plan.program == runtime.program
            &&& plan.args.len() == runtime.leading_args.len() + 1
            &&& forall|i: int|
                0 <= i < runtime.leading_args.len() ==> #[trigger] plan.args[i]
                    == runtime.leading_args[i]
            &&& plan.args.last() == script
            &&& plan.project is None
            &&& plan.backend == runtime.program
        }),
{
}

/// A script that is compiled is handed to the shell by name, never as part of a
/// command: the words that follow `--` are the compiler, where it is chosen, the
/// script, and the program that is made of it inside the workspace.
pub proof fn lemma_compilers_get_the_script_as_a_word(
    runtime: RuntimeView,
    script: Seq<char>,
    workspace: Seq<char>,
    present: Seq<Seq<char>>,
)
    requires
        is_compiled(runtime),
        command_for(runtime, script, workspace, present).program == "sh"@,
    ensures
        ({
            let args = command_for(runtime, script, workspace, present).args;
            &&& args.len() >= 5
            &&& args[0] == "-c"@
            &&& args[2] == "--"@
            &&& args[args.len() - 2] == script
            &&& args.last() == path_in(workspace, "main_bin"@)
            &&& forall|other: Seq<char>|
                #![trigger command_for(runtime, other, workspace, present)]
                command_for(runtime, other, workspace, present).args[1] == args[1]
            &&& command_for(runtime, script, workspace, present).project is None
        }),
{
    reveal_strlit("sh");
    reveal_strlit("rust-script");
    reveal_strlit("dotnet-script");
    reveal_strlit("dotnet");
    assert("sh"@.len() == 2);
    assert("rust-script"@.len() == 11);
    assert("dotnet-script"@.len() == 13);
    assert("dotnet"@.len() == 6);
}

/// A runner that is found is preferred to a compiler, and is given the script alone.
pub proof fn lemma_runners_are_preferred(
    runtime: RuntimeView,
    script: Seq<char>,
    workspace: Seq<char>,
    present: Seq<Seq<char>>,
)
    ensures
        runtime.names.contains("rust"@) && present.contains("rust-script"@) ==> command_for(
            runtime,
            script,
            workspace,
            present,
        ).program == "rust-script"@ && command_for(runtime, script, workspace, present).args
            == seq![script],
        !runtime.names.contains("rust"@) && runtime.names.contains("csharp"@)
            && present.contains("dotnet-script"@) ==> command_for(
            runtime,
            script,
            workspace,
            present,
        ).program == "dotnet-script"@ && command_for(runtime, script, workspace, present).args
            == seq![script],
        !runtime.names.contains("rust"@) && runtime.names.contains("csharp"@)
            && !present.contains("dotnet-script"@) ==> {
            let plan = command_for(runtime, script, workspace, present);
            &&& plan.program == "dotnet"@ && plan.args.len() > 0 && plan.args[0] == "run"@
            &&& plan.project matches Some(project) && project.0 == plan.args.last() && project.0
                == path_in(workspace, "main.csproj"@)
        },
{
}

/// What is looked for before a command is built is what the choice depends on: other
/// programs make no difference.
pub proof fn lemma_probes_decide(
    runtime: RuntimeView,
    script: Seq<char>,
    workspace: Seq<char>,
    a: Seq<Seq<char>>,
    b: Seq<Seq<char>>,
)
    requires
        forall|program: Seq<char>| #[trigger]
            probed_commands(runtime).contains(program) ==> (a.contains(program) <==> b.contains(
                program,
            )),
    ensures
        command_for(runtime, script, workspace, a) == command_for(runtime, script, workspace, b),
{
    let probed = probed_commands(runtime);
    if runtime.names.contains("rust"@) {
        assert(probed[0] == "rust-script"@);
        assert(probed.contains("rust-script"@));
    } else if runtime.names.contains("csharp"@) {
        assert(probed[0] == "dotnet-script"@);
        assert(probed.contains("dotnet-script"@));
    } else if runtime.names.contains("c"@) {
        assert(probed[0] == "gcc"@);
        assert(probed.contains("gcc"@));
        assert(probed[1] == "clang"@);
        assert(probed.contains("clang"@));
    } else if runtime.names.contains("cpp"@) {
        assert(probed[0] == "g++"@);
        assert(probed.contains("g++"@));
        assert(probed[1] == "clang++"@);
        assert(probed.contains("clang++"@));
    }
}

/// A script is found by any name of its language in any case and with blanks around
/// it, and lies in the workspace under the extension of that language.
pub proof fn lemma_lookup(language: Seq<char>)
    ensures
        looked_up(language) matches Ok(runtime) ==> runtime_table().contains(runtime)
            && runtime.names.contains(lowercase_text(trimmed(language))),
        looked_up(language) is Err ==> forall|i: int|
            0 <= i < runtime_table().len() ==> !(#[trigger] runtime_table()[i]).names.contains(
                lowercase_text(trimmed(language)),
            ),
        looked_up(language) is Err ==> looked_up(language)->Err_0 is InvalidArguments,
{
    lemma_named(runtime_table(), lowercase_text(trimmed(language)), 0);
}

/// What is run is what the arguments say, each under its own name: nothing is fed to
/// the script where no input is given, and thirty seconds are allowed where none are
/// asked for.
pub proof fn lemma_evaluation_arguments(args: JsonView, ctx: ToolContextView)
    requires
        evaluation_request(args, ctx) is Ok,
    ensures
        ({
            let evaluation = evaluation_request(args, ctx)->Ok_0;
            &&& ctx.policy.allow_code_execution
            &&& args.field("language"@) matches Some(JsonView::Text(language)) && looked_up(
                language,
            ) == Ok::<RuntimeView, ToolErrorView>(evaluation.runtime)
            &&& args.field("code"@) == Some(JsonView::Text(evaluation.code))
            &&& evaluation.stdin == match args.text_field("stdin"@) {
                Some(text) => text,
                None => ""@,
            }
            &&& args.unsigned_field("timeout_seconds"@) is None ==> evaluation.timeout == 30_000
            &&& args.unsigned_field("timeout_seconds"@) matches Some(n) ==> (1 <= n <= 600
                ==> evaluation.timeout == 1000 * n)
        }),
{
}

/// The report of a run holds the exit code, what was printed on each of the two
/// streams, and whether either was cut off, each under its own name.
pub proof fn lemma_evaluation_report(
    language: Seq<char>,
    code: Option<i32>,
    stdout: CapturedView,
    stderr: CapturedView,
)
    ensures
        evaluation_result(language, code, stdout, stderr).structured_content matches Some(report)
            && {
            &&& report.field("language"@) == Some(JsonView::Text(language))
            &&& report.field("stdout"@) == Some(JsonView::Text(lossy_text(stdout.bytes)))
            &&& report.field("stderr"@) == Some(JsonView::Text(lossy_text(stderr.bytes)))
            &&& report.field("stdout_truncated"@) == Some(JsonView::Bool(stdout.truncated))
            &&& report.field("stderr_truncated"@) == Some(JsonView::Bool(stderr.truncated))
            &&& report.field("exit_code"@) == Some(
                match code {
                    Some(n) => json_integer(n as i64),
                    None => JsonView::Null,
                },
            )
            &&& evaluation_result(language, code, stdout, stderr).content
                == CallToolResultView::structured(report).content
        },
{
    reveal_strlit("language");
    reveal_strlit("exit_code");
    reveal_strlit("stdout");
    reveal_strlit("stderr");
    reveal_strlit("stdout_truncated");
    reveal_strlit("stderr_truncated");
    assert("language"@.len() == 8);
    assert("exit_code"@.len() == 9);
    assert("stdout"@.len() == 6);
    assert("stderr"@.len() == 6);
    assert("stdout_truncated"@.len() == 16);
    assert("stderr_truncated"@.len() == 16);
    assert("stdout"@[3] == 'o');
    assert("stderr"@[3] == 'e');
    assert("stdout_truncated"@[3] == 'o');
    assert("stderr_truncated"@[3] == 'e');
}

/// What is captured is the beginning of what was printed, all of it where it is not
/// too much, and it is said whether anything is missing.
pub proof fn lemma_captured_output(printed: Seq<u8>)
    ensures
        capped(printed).bytes.len() <= 262144,
        capped(printed).bytes == printed.take(capped(printed).bytes.len() as int),
        capped(printed).truncated <==> capped(printed).bytes.len() < printed.len(),
        printed.len() <= 262144 ==> capped(printed).bytes == printed,
        printed.len() > 262144 ==> capped(printed).bytes.len() == 262144,
{
    assert(printed.take(printed.len() as int) =~= printed);
}

/// Whatever a script leaves behind on purpose stays in its workspace: the variables
/// it is given name the workspace or what lies in it.
pub proof fn lemma_environment_stays_in_the_workspace(workspace: Seq<char>)
    ensures
        script_environment(workspace).len() == 7,
        script_environment(workspace).contains(("DOTNET_NOLOGO"@, "1"@)),
        script_environment(workspace).contains(("DOTNET_CLI_TELEMETRY_OPTOUT"@, "1"@)),
        script_environment(workspace).contains(("DOTNET_SKIP_FIRST_TIME_EXPERIENCE"@, "1"@)),
        script_environment(workspace).contains(("TMPDIR"@, workspace)),
        script_environment(workspace).contains(("DOTNET_CLI_HOME"@, workspace)),
        script_environment(workspace).contains(("GOCACHE"@, path_in(workspace, "go-cache"@))),
        script_environment(workspace).contains(("NUGET_PACKAGES"@, path_in(workspace, "nuget"@))),
        forall|runtime: RuntimeView| #[trigger]
            script_path(runtime, workspace) == path_in(workspace, "main."@ + runtime.extension),
{
    assert(script_environment(workspace)[4] == ("DOTNET_NOLOGO"@, "1"@));
    assert(script_environment(workspace)[5] == ("DOTNET_CLI_TELEMETRY_OPTOUT"@, "1"@));
    assert(script_environment(workspace)[6] == ("DOTNET_SKIP_FIRST_TIME_EXPERIENCE"@, "1"@));
    let list = script_environment(workspace);
    assert(list[1] == ("TMPDIR"@, workspace));
    assert(list[2] == ("DOTNET_CLI_HOME"@, workspace));
    assert(list[0] == ("GOCACHE"@, path_in(workspace, "go-cache"@)));
    assert(list[3] == ("NUGET_PACKAGES"@, path_in(workspace, "nuget"@)));
}

/// A script may run for as long as is asked for, from a second to ten minutes, and no
/// longer; half a minute where nothing is asked for.
pub proof fn lemma_time_limits(args: JsonView, ctx: ToolContextView)
    requires
        evaluation_request(args, ctx) is Ok,
    ensures
        ({
            let timeout = evaluation_request(args, ctx)->Ok_0.timeout;
            &&& 1000 <= timeout <= 600_000
            &&& args.unsigned_field("timeout_seconds"@) == Some(0u64) ==> timeout == 1000
            &&& args.unsigned_field("timeout_seconds"@) matches Some(n) ==> (n > 600 ==> timeout
                == 600_000)
        }),
{
}

/// A script in a language that is known is run wherever that is allowed, and is denied
/// where it is not.
pub proof fn lemma_evaluations_are_made(
    args: JsonView,
    ctx: ToolContextView,
    language: Seq<char>,
    code: Seq<char>,
)
    requires
        args.field("language"@) == Some(JsonView::Text(language)),
        args.field("code"@) == Some(JsonView::Text(code)),
        args.field("stdin"@) is None,
        args.field("timeout_seconds"@) is None,
    ensures
        match looked_up(language) {
            Ok(_) => if ctx.policy.allow_code_execution {
                evaluation_request(args, ctx) is Ok
            } else {
                evaluation_request(args, ctx) matches Err(err) && err is Denied
            },
            Err(err) => evaluation_request(args, ctx) is Err && (ctx.policy.allow_code_execution
                ==> evaluation_request(args, ctx) == Err::<EvaluationView, ToolErrorView>(err)),
        },
{
}

/// What the tool takes: a language out of all that are known, a script, and what it may
/// read and how long it may run.
pub proof fn lemma_eval_schema()
    ensures
        eval_tool().name == "eval_code"@,
        needs(eval_tool().input_schema, seq!["language"@, "code"@]),
        takes(eval_tool().input_schema, "language"@, "string"@),
        takes(eval_tool().input_schema, "code"@, "string"@),
        takes(eval_tool().input_schema, "stdin"@, "string"@),
        takes(eval_tool().input_schema, "timeout_seconds"@, "integer"@),
        eval_tool().input_schema.field("properties"@) matches Some(properties) && (
        properties.field("language"@) matches Some(language) && language.field("enum"@) == Some(
            json_texts(all_names(runtime_table())),
        )),
{
    reveal_strlit("type");
    reveal_strlit("properties");
    reveal_strlit("required");
    reveal_strlit("description");
    reveal_strlit("language");
    reveal_strlit("code");
    reveal_strlit("stdin");
    reveal_strlit("timeout_seconds");
    reveal_strlit("enum");
    assert("type"@.len() == 4);
    assert("properties"@.len() == 10);
    assert("required"@.len() == 8);
    assert("description"@.len() == 11);
    assert("language"@.len() == 8);
    assert("code"@.len() == 4);
    assert("stdin"@.len() == 5);
    assert("timeout_seconds"@.len() == 15);
    assert("enum"@.len() == 4);
    assert("type"@[0] == 't');
    assert("required"@[0] == 'r');
    assert("language"@[0] == 'l');
    assert("code"@[0] == 'c');
    assert("enum"@[0] == 'e');
}

/// Every name of every language is offered, and nothing else is.
pub proof fn lemma_all_names(table: Seq<RuntimeView>, name: Seq<char>)
    ensures
        all_names(table).contains(name) <==> exists|i: int|
            0 <= i < table.len() && (#[trigger] table[i]).names.contains(name),
    decreases table.len(),
{
    let all = all_names(table);
    if table.len() > 0 {
        let front = table.drop_last();
        let end = table.len() - 1;
        let before = all_names(front);
        lemma_all_names(front, name);
        assert(table[end] == table.last());
        if all.contains(name) {
            let p = choose|p: int| 0 <= p < all.len() && all[p] == name;
            if p < before.len() {
                assert(before[p] == name);
                assert(before.contains(name));
                let i = choose|i: int|
                    0 <= i < front.len() && (#[trigger] front[i]).names.contains(name);
                assert(table[i] == front[i]);
            } else {
                assert(table[end].names[p - before.len()] == name);
            }
        }
        if exists|i: int| 0 <= i < table.len() && (#[trigger] table[i]).names.contains(name) {
            let i = choose|i: int|
                0 <= i < table.len() && (#[trigger] table[i]).names.contains(name);
            if i < end {
                assert(front[i] == table[i]);
                assert(before.contains(name));
                let p = choose|p: int| 0 <= p < before.len() && before[p] == name;
                assert(all[p] == name);
            } else {
                let q = choose|q: int| 0 <= q < table[i].names.len() && table[i].names[q] == name;
                assert(all[before.len() + q] == name);
            }
        }
    }
}

/// A compiler that is there is taken, the usual one before the other; where neither is,
/// the one that every system has a name for. The report names the one that was taken.
pub proof fn lemma_compilers_are_chosen(
    runtime: RuntimeView,
    script: Seq<char>,
    workspace: Seq<char>,
    present: Seq<Seq<char>>,
)
    requires
        !runtime.names.contains("rust"@) && !runtime.names.contains("csharp"@),
        runtime.names.contains("c"@) || runtime.names.contains("cpp"@),
    ensures
        ({
            let plan = command_for(runtime, script, workspace, present);
            let c = runtime.names.contains("c"@);
            let usual = if c {
                "gcc"@
            } else {
                "g++"@
            };
            let other = if c {
                "clang"@
            } else {
                "clang++"@
            };
            let last = if c {
                "cc"@
            } else {
                "c++"@
            };
            &&& plan.program == "sh"@
            &&& plan.args.len() == 6
            &&& plan.args[3] == plan.backend
            &&& present.contains(usual) ==> plan.backend == usual
            &&& !present.contains(usual) && present.contains(other) ==> plan.backend == other
            &&& !present.contains(usual) && !present.contains(other) ==> plan.backend == last
        }),
{
}

/// What is compiled is run only where compiling went well, and its words are taken as
/// words, whatever is in them.
pub proof fn lemma_compile_then_run(
    runtime: RuntimeView,
    script: Seq<char>,
    workspace: Seq<char>,
    present: Seq<Seq<char>>,
)
    requires
        command_for(runtime, script, workspace, present).program == "sh"@,
        is_compiled(runtime),
    ensures
        ({
            let shell = command_for(runtime, script, workspace, present).args[1];
            if runtime.names.contains("rust"@) {
                shell == "rustc \"$1\" -o \"$2\" && exec \"$2\""@
            } else if runtime.names.contains("c"@) {
                shell == "\"$1\" \"$2\" -o \"$3\" && exec \"$3\""@
            } else if runtime.names.contains("cpp"@) {
                shell == "\"$1\" -std=c++20 \"$2\" -o \"$3\" && exec \"$3\""@
            } else {
                shell == "gfortran \"$1\" -o \"$2\" && exec \"$2\""@
            }
        }),
{
    reveal_strlit("sh");
    reveal_strlit("dotnet");
    reveal_strlit("rust-script");
    reveal_strlit("dotnet-script");
    assert("sh"@.len() == 2);
    assert("dotnet"@.len() == 6);
    assert("rust-script"@.len() == 11);
    assert("dotnet-script"@.len() == 13);
}

/// The report names what ran the script: the runner where there is one, and else the
/// compiler.
pub proof fn lemma_backends_are_named(
    runtime: RuntimeView,
    script: Seq<char>,
    workspace: Seq<char>,
    present: Seq<Seq<char>>,
)
    ensures
        ({
            let plan = command_for(runtime, script, workspace, present);
            &&& plan.program != "sh"@ && is_compiled(runtime) ==> plan.backend == plan.program
            &&& runtime.names.contains("rust"@) && !present.contains("rust-script"@)
                ==> plan.backend == "rustc"@ && plan.program == "sh"@
        }),
{
    reveal_strlit("sh");
    reveal_strlit("dotnet");
    reveal_strlit("rust-script");
    reveal_strlit("dotnet-script");
    assert("sh"@.len() == 2);
    assert("dotnet"@.len() == 6);
    assert("rust-script"@.len() == 11);
    assert("dotnet-script"@.len() == 13);
}

} // verus!
