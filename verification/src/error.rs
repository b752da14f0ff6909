//! The run-time errors and their messages.
use crate::count::{count_text, Count};
use crate::enclosure::Enclosure;
use crate::text::{append_str, decimal, digits, signed_decimal, signed_digits, string_views};
use vstd::prelude::*;

verus! {

/// `words[i..]`, each between backticks, separated by single spaces, with a
/// space before the first of them when `i > 0`.
pub open spec fn ticked_words(words: Seq<Seq<char>>, i: int) -> Seq<char>
    decreases words.len() - i,
{
    if 0 <= i < words.len() {
        (if i > 0 {
            seq![' ']
        } else {
            Seq::empty()
        }) + seq!['`'] + words[i] + seq!['`'] + ticked_words(words, i + 1)
    } else {
        Seq::empty()
    }
}

/// A command line as error messages show it: the binary and then each
/// argument, each between backticks, separated by spaces.
pub fn format_cmd(binary: &str, arguments: &Vec<String>) -> (r: String)
    ensures
        r@ == ticked_words(seq![binary@] + string_views(arguments@), 0),
{
    let ghost words = seq![binary@] + string_views(arguments@);
    let mut r = Enclosure::tick(binary).to_string();
    let mut i: usize = 0;
    while i < arguments.len()
        invariant
            i <= arguments.len(),
            words == seq![binary@] + string_views(arguments@),
            r@ + ticked_words(words, i + 1) == ticked_words(words, 0),
        decreases arguments.len() - i,
    {
        append_str(&mut r, " ");
        let ticked = Enclosure::tick(arguments[i].as_str()).to_string();
        append_str(&mut r, ticked.as_str());
        proof {
            reveal_strlit(" ");
            assert(words[i + 1] == arguments@[i as int]@);
            assert(ticked_words(words, i + 1) == seq![' '] + seq!['`'] + words[i + 1] + seq!['`']
                + ticked_words(words, i + 2));
            assert(r@ + ticked_words(words, i + 2) =~= ticked_words(words, 0));
        }
        i += 1;
    }
    proof {
        assert(ticked_words(words, i + 1) == Seq::<char>::empty());
        assert(r@ =~= r@ + ticked_words(words, i + 1));
    }
    r
}

/// An error that stops a run, with what its message shows as plain values.
/// Where the cause is an I/O error, an exit status, a path, an operating
/// system string or an error of another library, the field holds the text
/// that the cause displays as.
#[derive(Clone, Debug, PartialEq, Eq)]
pub enum RunError {
    /// `parameters` holds each parameter of the recipe as it displays.
    ArgumentCountMismatch {
        recipe: String,
        parameters: Vec<String>,
        found: usize,
        min: usize,
        max: usize,
    },
    Assert { message: String },
    Backtick { output_error: OutputError },
    ChooserInvoke { shell_binary: String, shell_arguments: String, chooser: String, io_error: String },
    ChooserRead { chooser: String, io_error: String },
    /// `status` is the exit status as displayed, `status_code` its code.
    ChooserStatus { chooser: String, status: String, status_code: Option<i32> },
    ChooserWrite { chooser: String, io_error: String },
    CircularImport { current: String, import: String },
    Code { recipe: String, line_number: Option<usize>, code: i32, print_message: bool },
    CommandInvoke { binary: String, arguments: Vec<String>, io_error: String },
    Cygpath { recipe: String, output_error: OutputError },
    CommandStatus { binary: String, arguments: Vec<String>, status: String },
    DefaultRecipeRequiresArguments { recipe: String, min_arguments: usize },
    Dotenv { dotenv_error: String },
    DotenvRequired,
    DumpJson { source: String },
    EditorInvoke { editor: String, io_error: String },
    /// `status` is the exit status as displayed, `status_code` its code.
    EditorStatus { editor: String, status: String, status_code: Option<i32> },
    /// `suggestion` is the suggestion as it displays.
    EvalUnknownVariable { variable: String, suggestion: Option<String> },
    ExcessInvocations { invocations: usize },
    ExpectedSubmoduleButFoundRecipe { path: String },
    FormatCheckFoundDiff,
    FunctionCall { function: String, message: String },
    GetConfirmation { io_error: String },
    Homedir,
    InitExists { justfile: String },
    Internal { message: String },
    /// `signal` is the signal as it displays, `signal_code` the exit code it
    /// stands for.
    Interrupted { signal: String, signal_code: i32 },
    Io { recipe: String, kind: IoErrorKind, io_error: String },
    Load { path: String, io_error: String },
    MissingImportFile,
    MissingModuleFile { module: String },
    NoChoosableRecipes,
    NoDefaultRecipe,
    NoRecipes,
    NotConfirmed { recipe: String },
    RegexCompile { source: String },
    RuntimeDirIo { io_error: String, path: String },
    Script { command: String, io_error: String, recipe: String },
    Shebang { argument: Option<String>, command: String, io_error: String, recipe: String },
    Signal { recipe: String, line_number: Option<usize>, signal: i32 },
    SignalHandlerInstall { source: String },
    SignalHandlerPipeOpen { io_error: String },
    SignalHandlerSigaction { signal: String, io_error: String },
    SignalHandlerSpawnThread { io_error: String },
    StdoutIo { io_error: String },
    TempdirIo { recipe: String, io_error: String },
    TempfileIo { io_error: String },
    Unknown { recipe: String, line_number: Option<usize> },
    /// `suggestion` is the suggestion as it displays.
    UnknownRecipe { recipe: String, suggestion: Option<String> },
    UnknownSubmodule { path: String },
    WriteJustfile { justfile: String, io_error: String },
}

/// How a command whose output was wanted (a backtick, `cygpath`) failed.
#[derive(Clone, Debug, PartialEq, Eq)]
pub enum OutputError {
    /// It exited with this code.
    Code(i32),
    /// It was ended by the signal with this number.
    Signal(i32),
    /// It failed for no known reason.
    Unknown,
    /// It succeeded, but just was interrupted by `signal` (as it displays),
    /// which stands for the exit code `signal_code`.
    Interrupted { signal: String, signal_code: i32 },
    /// It could not be started; `io_error` is the error as it displays.
    Io { kind: IoErrorKind, io_error: String },
    /// Its output was not UTF-8; `utf8_error` is the error as it displays.
    Utf8 { utf8_error: String },
}

/// Why a shell could not be started, as far as the message tells.
#[derive(Clone, Copy, Debug, PartialEq, Eq, Structural)]
pub enum IoErrorKind {
    NotFound,
    PermissionDenied,
    Other,
}

/// "Recipe `recipe`", how most messages about a recipe begin.
pub open spec fn recipe_ref(recipe: Seq<char>) -> Seq<char> {
    "Recipe `"@ + recipe + "`"@
}

/// The message of an argument count mismatch; empty when `found` lies
/// between two different bounds.
pub open spec fn mismatch_message(recipe: Seq<char>, found: nat, min: nat, max: nat) -> Seq<char> {
    let head = recipe_ref(recipe) + " got "@ + digits(found, 10) + " "@ + count_text(
        found,
        None,
        "argument"@,
        false,
    );
    if min == max {
        head + " but "@ + (if min < found {
            "only "@
        } else {
            ""@
        }) + "takes "@ + digits(min, 10)
    } else if found < min {
        head + " but takes at least "@ + digits(min, 10)
    } else if found > max {
        head + " but takes at most "@ + digits(max, 10)
    } else {
        Seq::empty()
    }
}

/// A suggestion on a line of its own, if there is one.
pub open spec fn suggestion_line(suggestion: Option<String>) -> Seq<char> {
    match suggestion {
        Some(text) => "\n"@ + text@,
        None => Seq::empty(),
    }
}

/// The message of a failed backtick.
pub open spec fn backtick_message(e: OutputError) -> Seq<char> {
    match e {
        OutputError::Code(code) => "backtick failed with exit code "@ + signed_digits(code as int),
        OutputError::Signal(signal) => "Backtick was terminated by signal "@ + signed_digits(
            signal as int,
        ),
        OutputError::Unknown => "Backtick failed for an unknown reason"@,
        OutputError::Interrupted { signal, .. } =>
            "Backtick succeeded but `just` was interrupted by signal "@ + signal@,
        OutputError::Io { kind, io_error } => match kind {
            IoErrorKind::NotFound =>
                "Backtick could not be run because just could not find the shell:\n"@ + io_error@,
            IoErrorKind::PermissionDenied =>
                "Backtick could not be run because just could not run the shell:\n"@ + io_error@,
            IoErrorKind::Other =>
                "Backtick could not be run because of an IO error while launching the shell:\n"@
                    + io_error@,
        },
        OutputError::Utf8 { utf8_error } => "Backtick succeeded but stdout was not utf8: "@
            + utf8_error@,
    }
}

/// The message of a failed translation of a shebang interpreter path by
/// `cygpath` for `recipe`.
pub open spec fn cygpath_message(recipe: Seq<char>, e: OutputError) -> Seq<char> {
    match e {
        OutputError::Code(code) => "Cygpath failed with exit code "@ + signed_digits(code as int)
            + " while translating recipe `"@ + recipe + "` shebang interpreter path"@,
        OutputError::Signal(signal) => "Cygpath terminated by signal "@ + signed_digits(
            signal as int,
        ) + " while translating recipe `"@ + recipe + "` shebang interpreter path"@,
        OutputError::Unknown => "Cygpath experienced an unknown failure while translating recipe `"@
            + recipe + "` shebang interpreter path"@,
        OutputError::Interrupted { signal, .. } => "Cygpath succeeded but `just` was interrupted by "@
            + signal@,
        OutputError::Io { kind, io_error } => match kind {
            IoErrorKind::NotFound => "Could not find `cygpath` executable to translate recipe `"@
                + recipe + "` shebang interpreter path:\n"@ + io_error@,
            IoErrorKind::PermissionDenied =>
                "Could not run `cygpath` executable to translate recipe `"@ + recipe
                    + "` shebang interpreter path:\n"@ + io_error@,
            IoErrorKind::Other => "Could not run `cygpath` executable:\n"@ + io_error@,
        },
        OutputError::Utf8 { utf8_error } => "Cygpath successfully translated recipe `"@ + recipe
            + "` shebang interpreter path, but output was not utf8: "@ + utf8_error@,
    }
}

/// The text of the message of `e`.
pub open spec fn spec_run_message(e: RunError) -> Seq<char> {
    match e {
        RunError::ArgumentCountMismatch { recipe, found, min, max, .. } => mismatch_message(
            recipe@,
            found as nat,
            min as nat,
            max as nat,
        ),
        RunError::Assert { message } => "Assert failed: "@ + message@,
        RunError::Backtick { output_error } => backtick_message(output_error),
        RunError::ChooserInvoke { shell_binary, shell_arguments, chooser, io_error } => "Chooser `"@
            + shell_binary@ + " "@ + shell_arguments@ + " "@ + chooser@ + "` invocation failed: "@
            + io_error@,
        RunError::ChooserRead { chooser, io_error } => "Failed to read output from chooser `"@
            + chooser@ + "`: "@ + io_error@,
        RunError::ChooserStatus { chooser, status, .. } => "Chooser `"@ + chooser@ + "` failed: "@
            + status@,
        RunError::ChooserWrite { chooser, io_error } => "Failed to write to chooser `"@ + chooser@
            + "`: "@ + io_error@,
        RunError::CircularImport { current, import } => "Import `"@ + import@ + "` in `"@
            + current@ + "` is circular"@,
        RunError::Code { recipe, code, .. } => "Recipe \""@ + recipe@ + "\" failed with exit code "@
            + signed_digits(code as int),
        RunError::Cygpath { recipe, output_error } => cygpath_message(recipe@, output_error),
        RunError::CommandInvoke { binary, arguments, io_error } => "Failed to invoke "@
            + ticked_words(seq![binary@] + string_views(arguments@), 0) + ": "@ + io_error@,
        RunError::CommandStatus { binary, arguments, status } => "Command "@ + ticked_words(
            seq![binary@] + string_views(arguments@),
            0,
        ) + " failed: "@ + status@,
        RunError::EvalUnknownVariable { variable, suggestion } => "Justfile does not contain variable `"@
            + variable@ + "`."@ + suggestion_line(suggestion),
        RunError::DefaultRecipeRequiresArguments { recipe, min_arguments } => recipe_ref(recipe@)
            + " cannot be used as default recipe since it requires at least "@ + digits(
            min_arguments as nat,
            10,
        ) + " "@ + count_text(min_arguments as nat, None, "argument"@, false) + "."@,
        RunError::Dotenv { dotenv_error } => "Failed to load environment file: "@ + dotenv_error@,
        RunError::DotenvRequired => "Dotenv file not found"@,
        RunError::DumpJson { source } => "Failed to dump JSON to stdout: "@ + source@,
        RunError::EditorInvoke { editor, io_error } => "Editor `"@ + editor@
            + "` invocation failed: "@ + io_error@,
        RunError::EditorStatus { editor, status, .. } => "Editor `"@ + editor@ + "` failed: "@
            + status@,
        RunError::ExcessInvocations { invocations } =>
            "Expected 1 command-line recipe invocation but found "@ + digits(invocations as nat, 10)
                + "."@,
        RunError::ExpectedSubmoduleButFoundRecipe { path } => "Expected submodule at `"@ + path@
            + "` but found recipe."@,
        RunError::FormatCheckFoundDiff => "Formatted justfile differs from original."@,
        RunError::FunctionCall { function, message } => "Call to function `"@ + function@
            + "` failed: "@ + message@,
        RunError::GetConfirmation { io_error } => "Failed to read confirmation from stdin: "@
            + io_error@,
        RunError::Homedir => "Failed to get homedir"@,
        RunError::InitExists { justfile } => "Justfile `"@ + justfile@ + "` already exists"@,
        RunError::Internal { message } =>
            "Internal runtime error, this may indicate a bug in just: "@ + message@
                + " consider filing an issue: https://github.com/casey/just/issues/new"@,
        RunError::Interrupted { signal, .. } => "Interrupted by "@ + signal@,
        RunError::Io { recipe, kind, io_error } => recipe_ref(recipe@) + match kind {
            IoErrorKind::NotFound => " could not be run because just could not find the shell: "@,
            IoErrorKind::PermissionDenied =>
                " could not be run because just could not run the shell: "@,
            IoErrorKind::Other =>
                " could not be run because of an IO error while launching the shell: "@,
        } + io_error@,
        RunError::Load { path, io_error } => "Failed to read justfile at `"@ + path@ + "`: "@
            + io_error@,
        RunError::MissingImportFile => "Could not find source file for import."@,
        RunError::MissingModuleFile { module } => "Could not find source file for module `"@
            + module@ + "`."@,
        RunError::NoChoosableRecipes => "Justfile contains no choosable recipes."@,
        RunError::NoDefaultRecipe => "Justfile contains no default recipe."@,
        RunError::NoRecipes => "Justfile contains no recipes."@,
        RunError::NotConfirmed { recipe } => recipe_ref(recipe@) + " was not confirmed"@,
        RunError::RegexCompile { source } => source@,
        RunError::RuntimeDirIo { io_error, path } => "I/O error in runtime dir `"@ + path@ + "`: "@
            + io_error@,
        RunError::Script { command, io_error, recipe } => recipe_ref(recipe@)
            + " with command `"@ + command@ + "` execution error: "@ + io_error@,
        RunError::Shebang { argument, command, io_error, recipe } => match argument {
            Some(a) => recipe_ref(recipe@) + " with shebang `#!"@ + command@ + " "@ + a@
                + "` execution error: "@ + io_error@,
            None => recipe_ref(recipe@) + " with shebang `#!"@ + command@ + "` execution error: "@
                + io_error@,
        },
        RunError::Signal { recipe, line_number, signal } => match line_number {
            Some(n) => recipe_ref(recipe@) + " was terminated on line "@ + digits(n as nat, 10)
                + " by signal "@ + signed_digits(signal as int),
            None => recipe_ref(recipe@) + " was terminated by signal "@ + signed_digits(
                signal as int,
            ),
        },
        RunError::SignalHandlerInstall { source } => "Could not install signal handler: "@
            + source@,
        RunError::SignalHandlerPipeOpen { io_error } =>
            "I/O error opening pipe for signal handler: "@ + io_error@,
        RunError::SignalHandlerSigaction { signal, io_error } => "I/O error setting sigaction for "@
            + signal@ + ": "@ + io_error@,
        RunError::SignalHandlerSpawnThread { io_error } =>
            "I/O error spawning thread for signal handler: "@ + io_error@,
        RunError::StdoutIo { io_error } => "I/O error writing to stdout: "@ + io_error@,
        RunError::TempfileIo { io_error } => "Tempfile I/O error: "@ + io_error@,
        RunError::TempdirIo { recipe, io_error } => recipe_ref(recipe@)
            + " could not be run because of an IO error while trying to create a temporary directory or write a file to that directory: "@
            + io_error@,
        RunError::Unknown { recipe, line_number } => match line_number {
            Some(n) => recipe_ref(recipe@) + " failed on line "@ + digits(n as nat, 10)
                + " for an unknown reason"@,
            None => recipe_ref(recipe@) + " failed for an unknown reason"@,
        },
        RunError::UnknownRecipe { recipe, suggestion } => "Justfile does not contain recipe `"@
            + recipe@ + "`"@ + suggestion_line(suggestion),
        RunError::UnknownSubmodule { path } => "Justfile does not contain submodule `"@ + path@
            + "`"@,
        RunError::WriteJustfile { justfile, io_error } => "Failed to write justfile to `"@
            + justfile@ + "`: "@ + io_error@,
    }
}

/// The exit code for the end by the signal with number `signal`: 128 plus
/// the number, where that fits in an `i32`.
pub open spec fn signal_exit_code(signal: i32) -> Option<i32> {
    if 128 + signal <= i32::MAX {
        Some((128 + signal) as i32)
    } else {
        None
    }
}

/// The exit code that `e` asks the process to end with, if any.
pub open spec fn spec_run_code(e: RunError) -> Option<i32> {
    match e {
        RunError::Code { code, .. } => Some(code),
        RunError::Backtick { output_error: OutputError::Code(code) } => Some(code),
        RunError::Backtick { output_error: OutputError::Signal(signal) } => signal_exit_code(signal),
        RunError::Backtick { output_error: OutputError::Interrupted { signal_code, .. } } => Some(
            signal_code,
        ),
        RunError::Interrupted { signal_code, .. } => Some(signal_code),
        RunError::ChooserStatus { status_code, .. } => status_code,
        RunError::EditorStatus { status_code, .. } => status_code,
        RunError::Signal { signal, .. } => signal_exit_code(signal),
        _ => None,
    }
}

/// Each of `words`, after a space.
pub open spec fn spaced_words(words: Seq<Seq<char>>) -> Seq<char>
    decreases words.len(),
{
    if words.len() == 0 {
        Seq::empty()
    } else {
        spaced_words(words.drop_last()) + " "@ + words.last()
    }
}

/// What is written for `e`, before the final line feed: a failed recipe
/// line or a backtick that exits with a code reports its message alone;
/// every other error its message after `error: `, and an argument count
/// mismatch then a usage line with the recipe's parameters.
pub open spec fn spec_run_report(e: RunError) -> Seq<char> {
    match e {
        RunError::Code { .. } => spec_run_message(e),
        RunError::Backtick { output_error: OutputError::Code(_) } => spec_run_message(e),
        RunError::ArgumentCountMismatch { recipe, parameters, .. } => "error: "@ + spec_run_message(e)
            + "\nusage:\n    just "@ + recipe@ + spaced_words(string_views(parameters@)),
        _ => "error: "@ + spec_run_message(e),
    }
}

/// Appends "Recipe `recipe`".
fn append_recipe_ref(r: &mut String, recipe: &str)
    ensures
        final(r)@ == old(r)@ + recipe_ref(recipe@),
{
    append_str(r, "Recipe `");
    append_str(r, recipe);
    append_str(r, "`");
}

/// The message of an argument count mismatch.
fn mismatch_text(recipe: &str, found: usize, min: usize, max: usize) -> (r: String)
    ensures
        r@ == mismatch_message(recipe@, found as nat, min as nat, max as nat),
{
    let mut r = String::new();
    if min == max || found < min || found > max {
        append_recipe_ref(&mut r, recipe);
        append_str(&mut r, " got ");
        append_str(&mut r, decimal(found).as_str());
        append_str(&mut r, " ");
        append_str(&mut r, Count::unnumbered("argument", found).to_string().as_str());
        if min == max {
            append_str(&mut r, " but ");
            if min < found {
                append_str(&mut r, "only ");
            } else {
                append_str(&mut r, "");
            }
            append_str(&mut r, "takes ");
            append_str(&mut r, decimal(min).as_str());
        } else if found < min {
            append_str(&mut r, " but takes at least ");
            append_str(&mut r, decimal(min).as_str());
        } else {
            append_str(&mut r, " but takes at most ");
            append_str(&mut r, decimal(max).as_str());
        }
    }
    r
}

/// Appends the suggestion, if there is one, on a line of its own.
fn append_suggestion(r: &mut String, suggestion: &Option<String>)
    ensures
        final(r)@ == old(r)@ + suggestion_line(*suggestion),
{
    match suggestion {
        Some(text) => {
            append_str(r, "\n");
            append_str(r, text.as_str());
        },
        None => {
            assert(old(r)@ + Seq::<char>::empty() =~= old(r)@);
        },
    }
}

/// The message of a failed backtick, by `backtick_message`.
fn backtick_text(e: &OutputError) -> (r: String)
    ensures
        r@ == backtick_message(*e),
{
    let mut r = String::new();
    match e {
        OutputError::Code(code) => {
            append_str(&mut r, "backtick failed with exit code ");
            append_str(&mut r, signed_decimal(*code).as_str());
        },
        OutputError::Signal(signal) => {
            append_str(&mut r, "Backtick was terminated by signal ");
            append_str(&mut r, signed_decimal(*signal).as_str());
        },
        OutputError::Unknown => append_str(&mut r, "Backtick failed for an unknown reason"),
        OutputError::Interrupted { signal, .. } => {
            append_str(&mut r, "Backtick succeeded but `just` was interrupted by signal ");
            append_str(&mut r, signal.as_str());
        },
        OutputError::Io { kind, io_error } => {
            match kind {
                IoErrorKind::NotFound => append_str(
                    &mut r,
                    "Backtick could not be run because just could not find the shell:\n",
                ),
                IoErrorKind::PermissionDenied => append_str(
                    &mut r,
                    "Backtick could not be run because just could not run the shell:\n",
                ),
                IoErrorKind::Other => append_str(
                    &mut r,
                    "Backtick could not be run because of an IO error while launching the shell:\n",
                ),
            }
            append_str(&mut r, io_error.as_str());
        },
        OutputError::Utf8 { utf8_error } => {
            append_str(&mut r, "Backtick succeeded but stdout was not utf8: ");
            append_str(&mut r, utf8_error.as_str());
        },
    }
    r
}

/// The message of a failed `cygpath` run for `recipe`, by
/// `cygpath_message`.
fn cygpath_text(recipe: &str, e: &OutputError) -> (r: String)
    ensures
        r@ == cygpath_message(recipe@, *e),
{
    let mut r = String::new();
    match e {
        OutputError::Code(code) => {
            append_str(&mut r, "Cygpath failed with exit code ");
            append_str(&mut r, signed_decimal(*code).as_str());
            append_str(&mut r, " while translating recipe `");
            append_str(&mut r, recipe);
            append_str(&mut r, "` shebang interpreter path");
        },
        OutputError::Signal(signal) => {
            append_str(&mut r, "Cygpath terminated by signal ");
            append_str(&mut r, signed_decimal(*signal).as_str());
            append_str(&mut r, " while translating recipe `");
            append_str(&mut r, recipe);
            append_str(&mut r, "` shebang interpreter path");
        },
        OutputError::Unknown => {
            append_str(&mut r, "Cygpath experienced an unknown failure while translating recipe `");
            append_str(&mut r, recipe);
            append_str(&mut r, "` shebang interpreter path");
        },
        OutputError::Interrupted { signal, .. } => {
            append_str(&mut r, "Cygpath succeeded but `just` was interrupted by ");
            append_str(&mut r, signal.as_str());
        },
        OutputError::Io { kind, io_error } => {
            match kind {
                IoErrorKind::NotFound => {
                    append_str(&mut r, "Could not find `cygpath` executable to translate recipe `");
                    append_str(&mut r, recipe);
                    append_str(&mut r, "` shebang interpreter path:\n");
                },
                IoErrorKind::PermissionDenied => {
                    append_str(&mut r, "Could not run `cygpath` executable to translate recipe `");
                    append_str(&mut r, recipe);
                    append_str(&mut r, "` shebang interpreter path:\n");
                },
                IoErrorKind::Other => append_str(&mut r, "Could not run `cygpath` executable:\n"),
            }
            append_str(&mut r, io_error.as_str());
        },
        OutputError::Utf8 { utf8_error } => {
            append_str(&mut r, "Cygpath successfully translated recipe `");
            append_str(&mut r, recipe);
            append_str(&mut r, "` shebang interpreter path, but output was not utf8: ");
            append_str(&mut r, utf8_error.as_str());
        },
    }
    r
}

impl RunError {
    /// The message of the error, as it follows `error: `.
    pub fn message(&self) -> (r: String)
        ensures
            r@ == spec_run_message(*self),
    {
        let mut r = String::new();
        match self {
            RunError::ArgumentCountMismatch { recipe, found, min, max, .. } => {
                r = mismatch_text(recipe.as_str(), *found, *min, *max);
            },
            RunError::Assert { message } => {
                append_str(&mut r, "Assert failed: ");
                append_str(&mut r, message.as_str());
            },
            RunError::Backtick { output_error } => {
                r = backtick_text(output_error);
            },
            RunError::Cygpath { recipe, output_error } => {
                r = cygpath_text(recipe.as_str(), output_error);
            },
            RunError::EvalUnknownVariable { variable, suggestion } => {
                append_str(&mut r, "Justfile does not contain variable `");
                append_str(&mut r, variable.as_str());
                append_str(&mut r, "`.");
                append_suggestion(&mut r, suggestion);
            },
            RunError::Interrupted { signal, .. } => {
                append_str(&mut r, "Interrupted by ");
                append_str(&mut r, signal.as_str());
            },
            RunError::MissingImportFile => append_str(&mut r, "Could not find source file for import."),
            RunError::MissingModuleFile { module } => {
                append_str(&mut r, "Could not find source file for module `");
                append_str(&mut r, module.as_str());
                append_str(&mut r, "`.");
            },
            RunError::SignalHandlerInstall { source } => {
                append_str(&mut r, "Could not install signal handler: ");
                append_str(&mut r, source.as_str());
            },
            RunError::SignalHandlerPipeOpen { io_error } => {
                append_str(&mut r, "I/O error opening pipe for signal handler: ");
                append_str(&mut r, io_error.as_str());
            },
            RunError::SignalHandlerSigaction { signal, io_error } => {
                append_str(&mut r, "I/O error setting sigaction for ");
                append_str(&mut r, signal.as_str());
                append_str(&mut r, ": ");
                append_str(&mut r, io_error.as_str());
            },
            RunError::SignalHandlerSpawnThread { io_error } => {
                append_str(&mut r, "I/O error spawning thread for signal handler: ");
                append_str(&mut r, io_error.as_str());
            },
            RunError::UnknownRecipe { recipe, suggestion } => {
                append_str(&mut r, "Justfile does not contain recipe `");
                append_str(&mut r, recipe.as_str());
                append_str(&mut r, "`");
                append_suggestion(&mut r, suggestion);
            },
            RunError::ChooserInvoke { shell_binary, shell_arguments, chooser, io_error } => {
                append_str(&mut r, "Chooser `");
                append_str(&mut r, shell_binary.as_str());
                append_str(&mut r, " ");
                append_str(&mut r, shell_arguments.as_str());
                append_str(&mut r, " ");
                append_str(&mut r, chooser.as_str());
                append_str(&mut r, "` invocation failed: ");
                append_str(&mut r, io_error.as_str());
            },
            RunError::ChooserRead { chooser, io_error } => {
                append_str(&mut r, "Failed to read output from chooser `");
                append_str(&mut r, chooser.as_str());
                append_str(&mut r, "`: ");
                append_str(&mut r, io_error.as_str());
            },
            RunError::ChooserStatus { chooser, status, .. } => {
                append_str(&mut r, "Chooser `");
                append_str(&mut r, chooser.as_str());
                append_str(&mut r, "` failed: ");
                append_str(&mut r, status.as_str());
            },
            RunError::ChooserWrite { chooser, io_error } => {
                append_str(&mut r, "Failed to write to chooser `");
                append_str(&mut r, chooser.as_str());
                append_str(&mut r, "`: ");
                append_str(&mut r, io_error.as_str());
            },
            RunError::CircularImport { current, import } => {
                append_str(&mut r, "Import `");
                append_str(&mut r, import.as_str());
                append_str(&mut r, "` in `");
                append_str(&mut r, current.as_str());
                append_str(&mut r, "` is circular");
            },
            RunError::Code { recipe, code, .. } => {
                append_str(&mut r, "Recipe \"");
                append_str(&mut r, recipe.as_str());
                append_str(&mut r, "\" failed with exit code ");
                append_str(&mut r, signed_decimal(*code).as_str());
            },
            RunError::CommandInvoke { binary, arguments, io_error } => {
                append_str(&mut r, "Failed to invoke ");
                append_str(&mut r, format_cmd(binary.as_str(), arguments).as_str());
                append_str(&mut r, ": ");
                append_str(&mut r, io_error.as_str());
            },
            RunError::CommandStatus { binary, arguments, status } => {
                append_str(&mut r, "Command ");
                append_str(&mut r, format_cmd(binary.as_str(), arguments).as_str());
                append_str(&mut r, " failed: ");
                append_str(&mut r, status.as_str());
            },
            RunError::DefaultRecipeRequiresArguments { recipe, min_arguments } => {
                append_recipe_ref(&mut r, recipe.as_str());
                append_str(&mut r, " cannot be used as default recipe since it requires at least ");
                append_str(&mut r, decimal(*min_arguments).as_str());
                append_str(&mut r, " ");
                append_str(&mut r, Count::unnumbered("argument", *min_arguments).to_string().as_str());
                append_str(&mut r, ".");
            },
            RunError::Dotenv { dotenv_error } => {
                append_str(&mut r, "Failed to load environment file: ");
                append_str(&mut r, dotenv_error.as_str());
            },
            RunError::DotenvRequired => append_str(&mut r, "Dotenv file not found"),
            RunError::DumpJson { source } => {
                append_str(&mut r, "Failed to dump JSON to stdout: ");
                append_str(&mut r, source.as_str());
            },
            RunError::EditorInvoke { editor, io_error } => {
                append_str(&mut r, "Editor `");
                append_str(&mut r, editor.as_str());
                append_str(&mut r, "` invocation failed: ");
                append_str(&mut r, io_error.as_str());
            },
            RunError::EditorStatus { editor, status, .. } => {
                append_str(&mut r, "Editor `");
                append_str(&mut r, editor.as_str());
                append_str(&mut r, "` failed: ");
                append_str(&mut r, status.as_str());
            },
            RunError::ExcessInvocations { invocations } => {
                append_str(&mut r, "Expected 1 command-line recipe invocation but found ");
                append_str(&mut r, decimal(*invocations).as_str());
                append_str(&mut r, ".");
            },
            RunError::ExpectedSubmoduleButFoundRecipe { path } => {
                append_str(&mut r, "Expected submodule at `");
                append_str(&mut r, path.as_str());
                append_str(&mut r, "` but found recipe.");
            },
            RunError::FormatCheckFoundDiff => append_str(
                &mut r,
                "Formatted justfile differs from original.",
            ),
            RunError::FunctionCall { function, message } => {
                append_str(&mut r, "Call to function `");
                append_str(&mut r, function.as_str());
                append_str(&mut r, "` failed: ");
                append_str(&mut r, message.as_str());
            },
            RunError::GetConfirmation { io_error } => {
                append_str(&mut r, "Failed to read confirmation from stdin: ");
                append_str(&mut r, io_error.as_str());
            },
            RunError::Homedir => append_str(&mut r, "Failed to get homedir"),
            RunError::InitExists { justfile } => {
                append_str(&mut r, "Justfile `");
                append_str(&mut r, justfile.as_str());
                append_str(&mut r, "` already exists");
            },
            RunError::Internal { message } => {
                append_str(&mut r, "Internal runtime error, this may indicate a bug in just: ");
                append_str(&mut r, message.as_str());
                append_str(
                    &mut r,
                    " consider filing an issue: https://github.com/casey/just/issues/new",
                );
            },
            RunError::Io { recipe, kind, io_error } => {
                append_recipe_ref(&mut r, recipe.as_str());
                match kind {
                    IoErrorKind::NotFound => append_str(
                        &mut r,
                        " could not be run because just could not find the shell: ",
                    ),
                    IoErrorKind::PermissionDenied => append_str(
                        &mut r,
                        " could not be run because just could not run the shell: ",
                    ),
                    IoErrorKind::Other => append_str(
                        &mut r,
                        " could not be run because of an IO error while launching the shell: ",
                    ),
                }
                append_str(&mut r, io_error.as_str());
            },
            RunError::Load { path, io_error } => {
                append_str(&mut r, "Failed to read justfile at `");
                append_str(&mut r, path.as_str());
                append_str(&mut r, "`: ");
                append_str(&mut r, io_error.as_str());
            },
            RunError::NoChoosableRecipes => append_str(
                &mut r,
                "Justfile contains no choosable recipes.",
            ),
            RunError::NoDefaultRecipe => append_str(&mut r, "Justfile contains no default recipe."),
            RunError::NoRecipes => append_str(&mut r, "Justfile contains no recipes."),
            RunError::NotConfirmed { recipe } => {
                append_recipe_ref(&mut r, recipe.as_str());
                append_str(&mut r, " was not confirmed");
            },
            RunError::RegexCompile { source } => append_str(&mut r, source.as_str()),
            RunError::RuntimeDirIo { io_error, path } => {
                append_str(&mut r, "I/O error in runtime dir `");
                append_str(&mut r, path.as_str());
                append_str(&mut r, "`: ");
                append_str(&mut r, io_error.as_str());
            },
            RunError::Script { command, io_error, recipe } => {
                append_recipe_ref(&mut r, recipe.as_str());
                append_str(&mut r, " with command `");
                append_str(&mut r, command.as_str());
                append_str(&mut r, "` execution error: ");
                append_str(&mut r, io_error.as_str());
            },
            RunError::Shebang { argument, command, io_error, recipe } => {
                append_recipe_ref(&mut r, recipe.as_str());
                append_str(&mut r, " with shebang `#!");
                append_str(&mut r, command.as_str());
                match argument {
                    Some(a) => {
                        append_str(&mut r, " ");
                        append_str(&mut r, a.as_str());
                    },
                    None => {},
                }
                append_str(&mut r, "` execution error: ");
                append_str(&mut r, io_error.as_str());
            },
            RunError::Signal { recipe, line_number, signal } => {
                append_recipe_ref(&mut r, recipe.as_str());
                match line_number {
                    Some(n) => {
                        append_str(&mut r, " was terminated on line ");
                        append_str(&mut r, decimal(*n).as_str());
                        append_str(&mut r, " by signal ");
                    },
                    None => append_str(&mut r, " was terminated by signal "),
                }
                append_str(&mut r, signed_decimal(*signal).as_str());
            },
            RunError::StdoutIo { io_error } => {
                append_str(&mut r, "I/O error writing to stdout: ");
                append_str(&mut r, io_error.as_str());
            },
            RunError::TempfileIo { io_error } => {
                append_str(&mut r, "Tempfile I/O error: ");
                append_str(&mut r, io_error.as_str());
            },
            RunError::TempdirIo { recipe, io_error } => {
                append_recipe_ref(&mut r, recipe.as_str());
                append_str(
                    &mut r,
                    " could not be run because of an IO error while trying to create a temporary directory or write a file to that directory: ",
                );
                append_str(&mut r, io_error.as_str());
            },
            RunError::Unknown { recipe, line_number } => {
                append_recipe_ref(&mut r, recipe.as_str());
                match line_number {
                    Some(n) => {
                        append_str(&mut r, " failed on line ");
                        append_str(&mut r, decimal(*n).as_str());
                        append_str(&mut r, " for an unknown reason");
                    },
                    None => append_str(&mut r, " failed for an unknown reason"),
                }
            },
            RunError::UnknownSubmodule { path } => {
                append_str(&mut r, "Justfile does not contain submodule `");
                append_str(&mut r, path.as_str());
                append_str(&mut r, "`");
            },
            RunError::WriteJustfile { justfile, io_error } => {
                append_str(&mut r, "Failed to write justfile to `");
                append_str(&mut r, justfile.as_str());
                append_str(&mut r, "`: ");
                append_str(&mut r, io_error.as_str());
            },
        }
        r
    }

    /// The exit code that the error asks the process to end with: the code
    /// of a failed line or backtick, the code of a chooser or editor that
    /// failed, the code of the signal that interrupted just, 128 plus the
    /// number of a signal that ended a recipe or backtick while that fits
    /// in an `i32`, and none otherwise.
    pub fn code(&self) -> (r: Option<i32>)
        ensures
            r == spec_run_code(*self),
    {
        match self {
            RunError::Code { code, .. } => Some(*code),
            RunError::Backtick { output_error: OutputError::Code(code) } => Some(*code),
            RunError::Backtick { output_error: OutputError::Signal(signal) } => 128i32.checked_add(
                *signal,
            ),
            RunError::Backtick { output_error: OutputError::Interrupted { signal_code, .. } } => Some(
                *signal_code,
            ),
            RunError::Interrupted { signal_code, .. } => Some(*signal_code),
            RunError::ChooserStatus { status_code, .. } => *status_code,
            RunError::EditorStatus { status_code, .. } => *status_code,
            RunError::Signal { signal, .. } => 128i32.checked_add(*signal),
            _ => None,
        }
    }

    /// What is written for the error, before the final line feed, by the
    /// rule of `spec_run_report`.
    pub fn report(&self) -> (r: String)
        ensures
            r@ == spec_run_report(*self),
    {
        let message = self.message();
        match self {
            RunError::Code { .. } => message,
            RunError::Backtick { output_error: OutputError::Code(_) } => message,
            RunError::ArgumentCountMismatch { recipe, parameters, .. } => {
                let mut r = String::new();
                append_str(&mut r, "error: ");
                append_str(&mut r, message.as_str());
                append_str(&mut r, "\nusage:\n    just ");
                append_str(&mut r, recipe.as_str());
                let ghost words = string_views(parameters@);
                let ghost head = r@;
                let mut i: usize = 0;
                while i < parameters.len()
                    invariant
                        i <= parameters@.len(),
                        words == string_views(parameters@),
                        r@ == head + spaced_words(words.take(i as int)),
                    decreases parameters@.len() - i,
                {
                    append_str(&mut r, " ");
                    append_str(&mut r, parameters[i].as_str());
                    proof {
                        assert(words.take(i + 1).drop_last() =~= words.take(i as int));
                        assert(words.take(i + 1).last() == parameters@[i as int]@);
                    }
                    i += 1;
                }
                assert(words.take(i as int) =~= words);
                r
            },
            _ => {
                let mut r = String::new();
                append_str(&mut r, "error: ");
                append_str(&mut r, message.as_str());
                r
            },
        }
    }

    /// Whether the message is shown: all but a failed line whose recipe
    /// asked for quiet failure.
    pub fn print_message(&self) -> (r: bool)
        ensures
            r == !(*self matches RunError::Code { print_message: false, .. }),
    {
        match self {
            RunError::Code { print_message, .. } => *print_message,
            _ => true,
        }
    }
}

} // verus!
