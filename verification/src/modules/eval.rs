//! Running code snippets.

use vstd::prelude::*;

use super::{module_result, say_unknown, unknown_message};
use crate::json::{Json, JsonView};
use crate::protocol::mcp::{CallToolResult, CallToolResultView, Tool, ToolView};
use crate::text::{cat2, cat3, lowercase, lowercase_text, none, one, same, views};
use crate::tools::schema::{needs, object_schema, property, property_schema, schema2, takes};

verus! {

/// The module that runs code snippets.
pub struct EvalModule;

/// What `eval_code` does.
pub const EVAL_DESCRIPTION: &'static str = "Evaluates code snippets in python, node, bash, ruby, perl, php, go, lua, or typescript";

/// What `language` of `eval_code` may be.
pub const LANGUAGE_DESCRIPTION: &'static str = "Language: python, node, bash, sh, ruby, perl, php, go, lua, typescript";

/// What the module advertises.
pub open spec fn eval_tools() -> Seq<ToolView> {
    seq![
        ToolView::new(
            "eval_code"@,
            EVAL_DESCRIPTION@,
            object_schema(
                JsonView::object().with(
                    "language"@,
                    property_schema("string"@, LANGUAGE_DESCRIPTION@),
                ).with("code"@, property_schema("string"@, "Code snippet to evaluate"@)),
                seq!["language"@, "code"@],
            ),
        ),
    ]
}

/// A snippet that is to be run: its code, the ending of the file it goes to, and
/// the program and arguments in front of that file.
pub struct Snippet {
    pub code: String,
    pub extension: String,
    pub program: String,
    pub leading_args: Vec<String>,
}

/// What a [`Snippet`] is.
pub struct SnippetView {
    pub code: Seq<char>,
    pub extension: Seq<char>,
    pub program: Seq<char>,
    pub leading_args: Seq<Seq<char>>,
}

impl View for Snippet {
    type V = SnippetView;

    open spec fn view(&self) -> SnippetView {
        SnippetView {
            code: self.code@,
            extension: self.extension@,
            program: self.program@,
            leading_args: views(self.leading_args@),
        }
    }
}

/// The file ending and the program of a language.
pub open spec fn interpreter(language: Seq<char>) -> Option<(Seq<char>, Seq<char>)> {
    if language == "python"@ || language == "py"@ {
        Some((".py"@, "python3"@))
    } else if language == "node"@ || language == "js"@ || language == "javascript"@ {
        Some((".js"@, "node"@))
    } else if language == "bash"@ || language == "sh"@ {
        Some((".sh"@, "bash"@))
    } else if language == "ruby"@ || language == "rb"@ {
        Some((".rb"@, "ruby"@))
    } else if language == "perl"@ || language == "pl"@ {
        Some((".pl"@, "perl"@))
    } else if language == "php"@ {
        Some((".php"@, "php"@))
    } else if language == "go"@ {
        Some((".go"@, "go"@))
    } else if language == "lua"@ {
        Some((".lua"@, "lua"@))
    } else if language == "typescript"@ || language == "ts"@ {
        Some((".ts"@, "tsx"@))
    } else {
        None
    }
}

/// The snippet that a call asks to run.
pub open spec fn requested_snippet(name: Seq<char>, args: JsonView) -> Result<
    SnippetView,
    Seq<char>,
> {
    if name != "eval_code"@ {
        Err(unknown_message(name))
    } else {
        match args.text_field("language"@) {
            None => Err("Missing language"@),
            Some(language) => match args.text_field("code"@) {
                None => Err("Missing code"@),
                Some(code) => match interpreter(lowercase_text(language)) {
                    None => Err("Unsupported language: "@ + lowercase_text(language)),
                    Some((extension, program)) => Ok(
                        SnippetView {
                            code,
                            extension,
                            program,
                            leading_args: if program == "go"@ {
                                seq!["run"@]
                            } else {
                                seq![]
                            },
                        },
                    ),
                },
            },
        }
    }
}

/// What a snippet that ended is answered with: what it printed, errors behind a
/// line of their own.
pub open spec fn snippet_output(stdout: Seq<char>, stderr: Seq<char>) -> Seq<char> {
    if stdout.len() == 0 && stderr.len() == 0 {
        "(no output)"@
    } else if stderr.len() == 0 {
        stdout
    } else if stdout.len() == 0 {
        stderr
    } else {
        stdout + "\n--- Stderr ---\n"@ + stderr
    }
}

fn pick(language: &str) -> (r: Option<(&'static str, &'static str)>)
    ensures
        match r {
            Some((extension, program)) => interpreter(language@) == Some((extension@, program@)),
            None => interpreter(language@) is None,
        },
{
    if same(language, "python") || same(language, "py") {
        Some((".py", "python3"))
    } else if same(language, "node") || same(language, "js") || same(language, "javascript") {
        Some((".js", "node"))
    } else if same(language, "bash") || same(language, "sh") {
        Some((".sh", "bash"))
    } else if same(language, "ruby") || same(language, "rb") {
        Some((".rb", "ruby"))
    } else if same(language, "perl") || same(language, "pl") {
        Some((".pl", "perl"))
    } else if same(language, "php") {
        Some((".php", "php"))
    } else if same(language, "go") {
        Some((".go", "go"))
    } else if same(language, "lua") {
        Some((".lua", "lua"))
    } else if same(language, "typescript") || same(language, "ts") {
        Some((".ts", "tsx"))
    } else {
        None
    }
}

/// Writes what a snippet printed.
pub fn compose_output(stdout: &str, stderr: &str) -> (r: CallToolResult)
    ensures
        r@ == CallToolResultView::text(snippet_output(stdout@, stderr@)),
{
    let out_empty = crate::text::chars_of(stdout).len() == 0;
    let err_empty = crate::text::chars_of(stderr).len() == 0;
    let text = if out_empty && err_empty {
        "(no output)".to_owned()
    } else if err_empty {
        stdout.to_owned()
    } else if out_empty {
        stderr.to_owned()
    } else {
        cat3(stdout, "\n--- Stderr ---\n", stderr)
    };
    CallToolResult::text(text)
}

impl EvalModule {
    /// The module.
    pub fn new() -> (r: EvalModule)
        ensures
            r == EvalModule,
    {
        EvalModule
    }

    /// Unique identifier of the module.
    pub fn name(&self) -> (r: &'static str)
        ensures
            r@ == "eval"@,
    {
        "eval"
    }

    /// What the module advertises.
    pub fn tools(&self) -> (r: Vec<Tool>)
        ensures
            views(r@) == eval_tools(),
    {
        let tools: Vec<Tool> = vec![
            Tool::new(
                "eval_code",
                EVAL_DESCRIPTION,
                schema2(
                    Json::object().with(
                        "language",
                        property("string", LANGUAGE_DESCRIPTION),
                    ).with("code", property("string", "Code snippet to evaluate")),
                    "language",
                    "code",
                ),
            ),
        ];
        assert(views(tools@) =~= eval_tools());
        tools
    }

    /// Reads what a call asks to run.
    pub fn plan(&self, name: &str, args: &Json) -> (r: Result<Snippet, String>)
        ensures
            module_result(r) == requested_snippet(name@, args@),
    {
        if !same(name, "eval_code") {
            return Err(say_unknown(name));
        }
        let language = match args.get_text("language") {
            Some(language) => lowercase(language),
            None => return Err("Missing language".to_owned()),
        };
        let code = match args.get_text("code") {
            Some(code) => code.clone(),
            None => return Err("Missing code".to_owned()),
        };
        match pick(&language) {
            None => Err(cat2("Unsupported language: ", &language)),
            Some((extension, program)) => Ok(
                Snippet {
                    code,
                    extension: extension.to_owned(),
                    program: program.to_owned(),
                    leading_args: if same(program, "go") {
                        one("run")
                    } else {
                        none()
                    },
                },
            ),
        }
    }
}

/// A language is known by its name or by a short form of it, and by nothing else.
pub proof fn lemma_languages(language: Seq<char>)
    ensures
        interpreter(language) is Some <==> language == "python"@ || language == "py"@ || language == "node"@ || language == "js"@ || language == "javascript"@ || language == "bash"@ || language == "sh"@ || language == "ruby"@ || language == "rb"@ || language == "perl"@ || language == "pl"@ || language == "php"@ || language == "go"@ || language == "lua"@ || language == "typescript"@ || language == "ts"@,
        interpreter("python"@) == interpreter("py"@),
        interpreter("node"@) == interpreter("js"@),
        interpreter("node"@) == interpreter("javascript"@),
        interpreter("bash"@) == interpreter("sh"@),
        interpreter("ruby"@) == interpreter("rb"@),
        interpreter("perl"@) == interpreter("pl"@),
        interpreter("typescript"@) == interpreter("ts"@),
        interpreter("python"@) == Some((".py"@, "python3"@)),
        interpreter("node"@) == Some((".js"@, "node"@)),
        interpreter("bash"@) == Some((".sh"@, "bash"@)),
        interpreter("ruby"@) == Some((".rb"@, "ruby"@)),
        interpreter("perl"@) == Some((".pl"@, "perl"@)),
        interpreter("php"@) == Some((".php"@, "php"@)),
        interpreter("go"@) == Some((".go"@, "go"@)),
        interpreter("lua"@) == Some((".lua"@, "lua"@)),
        interpreter("typescript"@) == Some((".ts"@, "tsx"@)),
{
    reveal_strlit("python");
    reveal_strlit("py");
    reveal_strlit("node");
    reveal_strlit("js");
    reveal_strlit("javascript");
    reveal_strlit("bash");
    reveal_strlit("sh");
    reveal_strlit("ruby");
    reveal_strlit("rb");
    reveal_strlit("perl");
    reveal_strlit("pl");
    reveal_strlit("php");
    reveal_strlit("go");
    reveal_strlit("lua");
    reveal_strlit("typescript");
    reveal_strlit("ts");
    assert("python"@.len() == 6);
    assert("py"@.len() == 2);
    assert("node"@.len() == 4);
    assert("js"@.len() == 2);
    assert("javascript"@.len() == 10);
    assert("bash"@.len() == 4);
    assert("sh"@.len() == 2);
    assert("ruby"@.len() == 4);
    assert("rb"@.len() == 2);
    assert("perl"@.len() == 4);
    assert("pl"@.len() == 2);
    assert("php"@.len() == 3);
    assert("go"@.len() == 2);
    assert("lua"@.len() == 3);
    assert("typescript"@.len() == 10);
    assert("ts"@.len() == 2);
    assert("py"@[0] == 'p');
    assert("py"@[1] == 'y');
    assert("node"@[0] == 'n');
    assert("js"@[0] == 'j');
    assert("javascript"@[0] == 'j');
    assert("bash"@[0] == 'b');
    assert("sh"@[0] == 's');
    assert("ruby"@[0] == 'r');
    assert("rb"@[0] == 'r');
    assert("perl"@[0] == 'p');
    assert("pl"@[0] == 'p');
    assert("pl"@[1] == 'l');
    assert("php"@[0] == 'p');
    assert("go"@[0] == 'g');
    assert("lua"@[0] == 'l');
    assert("typescript"@[0] == 't');
    assert("ts"@[0] == 't');
}

/// A snippet is run as it is given, by the interpreter of its language, whose name may
/// be written in any case; only Go has a word before the file. What is missing, and a
/// language that is not known, is an error.
pub proof fn lemma_snippets(args: JsonView)
    ensures
        match requested_snippet("eval_code"@, args) {
            Ok(snippet) => {
                &&& args.field("code"@) == Some(JsonView::Text(snippet.code))
                &&& args.field("language"@) matches Some(JsonView::Text(language)) && interpreter(
                    lowercase_text(language),
                ) == Some((snippet.extension, snippet.program))
                &&& snippet.program == "go"@ ==> snippet.leading_args == seq!["run"@]
                &&& snippet.program != "go"@ ==> snippet.leading_args.len() == 0
            },
            Err(_) => {
                ||| !(args.field("code"@) matches Some(JsonView::Text(_)))
                ||| !(args.field("language"@) matches Some(JsonView::Text(_)))
                ||| (args.field("language"@) matches Some(JsonView::Text(language)) && interpreter(
                    lowercase_text(language),
                ) is None)
            },
        },
        forall|name: Seq<char>|
            name != "eval_code"@ ==> #[trigger] requested_snippet(name, args) is Err,
{
}

/// All that was printed is shown, first to the one stream and then, behind a mark, to
/// the other; where only one was used it is shown alone.
pub proof fn lemma_output_is_shown(stdout: Seq<char>, stderr: Seq<char>)
    ensures
        stderr.len() == 0 && stdout.len() > 0 ==> snippet_output(stdout, stderr) == stdout,
        stdout.len() == 0 && stderr.len() > 0 ==> snippet_output(stdout, stderr) == stderr,
        stdout.len() > 0 && stderr.len() > 0 ==> {
            let shown = snippet_output(stdout, stderr);
            &&& shown.len() > stdout.len() + stderr.len()
            &&& shown.take(stdout.len() as int) == stdout
            &&& shown.skip(shown.len() - stderr.len()) == stderr
        },
        stdout.len() == 0 && stderr.len() == 0 ==> snippet_output(stdout, stderr).len() > 0,
{
    reveal_strlit("\n--- Stderr ---\n");
    reveal_strlit("(no output)");
    assert("\n--- Stderr ---\n"@.len() == 16);
    assert("(no output)"@.len() == 11);
    let shown = snippet_output(stdout, stderr);
    if stdout.len() > 0 && stderr.len() > 0 {
        assert(shown.take(stdout.len() as int) =~= stdout);
        assert(shown.skip(shown.len() - stderr.len()) =~= stderr);
    }
}

/// What the tool takes: a language and a snippet.
pub proof fn lemma_eval_schema()
    ensures
        eval_tools().len() == 1,
        eval_tools()[0].name == "eval_code"@,
        needs(eval_tools()[0].input_schema, seq!["language"@, "code"@]),
        takes(eval_tools()[0].input_schema, "language"@, "string"@),
        takes(eval_tools()[0].input_schema, "code"@, "string"@),
{
    reveal_strlit("type");
    reveal_strlit("properties");
    reveal_strlit("required");
    reveal_strlit("description");
    reveal_strlit("language");
    reveal_strlit("code");
    assert("type"@.len() == 4);
    assert("properties"@.len() == 10);
    assert("required"@.len() == 8);
    assert("description"@.len() == 11);
    assert("language"@.len() == 8);
    assert("code"@.len() == 4);
    assert("type"@[0] == 't');
    assert("required"@[0] == 'r');
    assert("language"@[0] == 'l');
    assert("code"@[0] == 'c');
}

} // verus!
