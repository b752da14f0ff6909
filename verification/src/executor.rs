//! How a recipe is run: by an interpreter command, or by the interpreter
//! named on its shebang line. This module names the script file and writes
//! the script text.
use crate::interpreter::Interpreter;
use crate::shebang::{spec_interpreter_filename, Shebang};
use crate::string_literal::StringLiteral;
use crate::text::{append_str, opt_view, push_char, str_equal, string_of};
use vstd::prelude::*;
use vstd::string::*;

verus! {

/// A line of a recipe body: its line number in the recipe file and whether
/// it is a shebang line.
#[derive(Clone, Copy, Debug, PartialEq, Eq, Structural)]
pub struct RecipeLine {
    pub number: usize,
    pub shebang: bool,
}

/// What runs a recipe's script.
pub enum Executor<'a> {
    Command(&'a Interpreter<StringLiteral>),
    Shebang(Shebang),
}

/// The name of the program that runs the script.
pub open spec fn spec_interpreter_name(executor: Executor) -> Seq<char> {
    match executor {
        Executor::Command(interpreter) => interpreter.command.cooked@,
        Executor::Shebang(shebang) => spec_interpreter_filename(shebang.interpreter@),
    }
}

/// The file extension that the program `name` expects of its scripts.
pub open spec fn spec_default_extension(name: Seq<char>) -> Seq<char> {
    if name == "cmd"@ || name == "cmd.exe"@ {
        ".bat"@
    } else if name == "powershell"@ || name == "powershell.exe"@ || name == "pwsh"@ || name
        == "pwsh.exe"@ {
        ".ps1"@
    } else {
        Seq::empty()
    }
}

/// The number of shebang lines at the start of `body`.
pub open spec fn leading_shebangs(body: Seq<RecipeLine>) -> nat
    decreases body.len(),
{
    if body.len() > 0 && body[0].shebang {
        1 + leading_shebangs(body.drop_first())
    } else {
        0
    }
}

/// The script text for the lines `k..` of a recipe, when `n` lines have
/// been written: blank lines up to each line's number, then its text.
pub open spec fn spec_script_rest(body: Seq<RecipeLine>, lines: Seq<Seq<char>>, k: int, n: int) -> Seq<char>
    decreases body.len() - k,
{
    if k < 0 || k >= body.len() || k >= lines.len() {
        Seq::empty()
    } else {
        let number = body[k].number as int;
        let padding = if n < number {
            number - n
        } else {
            0
        };
        Seq::new(padding as nat, |_i: int| '\n') + lines[k] + seq!['\n'] + spec_script_rest(
            body,
            lines,
            k + 1,
            n + padding + 1,
        )
    }
}

/// The shebang lines of a script, each kept or left blank.
pub open spec fn spec_shebang_lines(lines: Seq<Seq<char>>, count: int, keep: bool) -> Seq<char>
    decreases count,
{
    if count <= 0 {
        Seq::empty()
    } else {
        spec_shebang_lines(lines, count - 1, keep) + if keep {
            lines[count - 1]
        } else {
            Seq::empty()
        } + seq!['\n']
    }
}

#[verifier::external_type_specification]
#[verifier::external_body]
pub struct ExIoError(std::io::Error);

/// A script that could not be run, with the I/O error that stopped it.
#[derive(Debug)]
pub enum ExecutorError {
    /// Run by an interpreter command, shown with its arguments.
    Script { command: String, io_error: std::io::Error, recipe: String },
    /// Run by the interpreter of its shebang line.
    Shebang {
        argument: Option<String>,
        command: String,
        io_error: std::io::Error,
        recipe: String,
    },
}

/// `command` followed by a space and each of `arguments`.
pub open spec fn spec_command_line(command: Seq<char>, arguments: Seq<Seq<char>>) -> Seq<char>
    decreases arguments.len(),
{
    if arguments.len() == 0 {
        command
    } else {
        spec_command_line(command, arguments.drop_last()) + seq![' '] + arguments.last()
    }
}

/// The cooked values of some string literals.
pub open spec fn cooked_views(v: Seq<StringLiteral>) -> Seq<Seq<char>> {
    v.map_values(|s: StringLiteral| s.cooked@)
}

/// The views of some strings.
pub open spec fn views(v: Seq<String>) -> Seq<Seq<char>> {
    v.map_values(|s: String| s@)
}

/// Whether `a` is `b` or `c`.
fn is_one_of(a: &str, b: &str, c: &str) -> (r: bool)
    ensures
        r == (a@ == b@ || a@ == c@),
{
    str_equal(a, b) || str_equal(a, c)
}

/// The line `m` (counting from 0) of `t[i..]`, lines being ended by line
/// feeds.
pub open spec fn line_from(t: Seq<char>, i: int, m: int) -> Seq<char>
    decreases t.len() - i,
{
    if i < 0 || i >= t.len() {
        Seq::empty()
    } else if t[i] == '\n' {
        if m <= 0 {
            Seq::empty()
        } else {
            line_from(t, i + 1, m - 1)
        }
    } else if m <= 0 {
        seq![t[i]] + line_from(t, i + 1, 0)
    } else {
        line_from(t, i + 1, m)
    }
}

/// The line `m` (counting from 0) of `t`.
pub open spec fn nth_line(t: Seq<char>, m: int) -> Seq<char> {
    line_from(t, 0, m)
}

/// The number of line feeds in `t[i..]`.
pub open spec fn line_feeds(t: Seq<char>, i: int) -> nat
    decreases t.len() - i,
{
    if i < 0 || i >= t.len() {
        0
    } else {
        line_feeds(t, i + 1) + if t[i] == '\n' {
            1nat
        } else {
            0nat
        }
    }
}

proof fn lemma_line_from_shift(p: Seq<char>, z: Seq<char>, j: int, m: int)
    requires
        0 <= j,
    ensures
        line_from(p + z, p.len() + j, m) == line_from(z, j, m),
    decreases z.len() - j, m,
{
    if j < z.len() {
        assert((p + z)[p.len() + j] == z[j]);
        if z[j] == '\n' {
            if m > 0 {
                lemma_line_from_shift(p, z, j + 1, m - 1);
            }
        } else if m <= 0 {
            lemma_line_from_shift(p, z, j + 1, 0);
        } else {
            lemma_line_from_shift(p, z, j + 1, m);
        }
    }
}

proof fn lemma_line_feeds_nonzero(p: Seq<char>, i: int)
    requires
        0 <= i < p.len(),
        p.last() == '\n',
    ensures
        line_feeds(p, i) >= 1,
    decreases p.len() - i,
{
    if i + 1 < p.len() {
        lemma_line_feeds_nonzero(p, i + 1);
    }
}

/// Past whole lines `p`, the lines of `p + z` are those of `z`.
proof fn lemma_skip_lines(p: Seq<char>, z: Seq<char>, i: int, m: int)
    requires
        0 <= i <= p.len(),
        p.len() == 0 || p.last() == '\n',
        m >= line_feeds(p, i),
    ensures
        line_from(p + z, i, m) == line_from(z, 0, m - line_feeds(p, i)),
    decreases p.len() - i,
{
    if i == p.len() {
        lemma_line_from_shift(p, z, 0, m);
    } else {
        assert((p + z)[i] == p[i]);
        lemma_line_feeds_nonzero(p, i);
        lemma_skip_lines(p, z, i + 1, if p[i] == '\n' {
            m - 1
        } else {
            m
        });
    }
}

/// The first line of `l + "\n" + z` is `l`, when `l` holds no line feed.
proof fn lemma_first_line(l: Seq<char>, z: Seq<char>, i: int)
    requires
        0 <= i <= l.len(),
        !l.contains('\n'),
    ensures
        line_from(l + seq!['\n'] + z, i, 0) == l.skip(i),
    decreases l.len() - i,
{
    let t = l + seq!['\n'] + z;
    if i < l.len() {
        assert(t[i] == l[i]);
        lemma_first_line(l, z, i + 1);
        assert(l.skip(i) =~= seq![l[i]] + l.skip(i + 1));
    } else {
        assert(t[i] == '\n');
        assert(l.skip(i) =~= Seq::<char>::empty());
    }
}

proof fn lemma_line_feeds_concat(a: Seq<char>, b: Seq<char>, i: int)
    requires
        0 <= i <= a.len(),
    ensures
        line_feeds(a + b, i) == line_feeds(a, i) + line_feeds(b, 0),
    decreases a.len() - i,
{
    if i < a.len() {
        assert((a + b)[i] == a[i]);
        lemma_line_feeds_concat(a, b, i + 1);
    } else {
        lemma_line_feeds_shift(a, b, 0);
    }
}

proof fn lemma_line_feeds_shift(a: Seq<char>, b: Seq<char>, j: int)
    requires
        0 <= j,
    ensures
        line_feeds(a + b, a.len() + j) == line_feeds(b, j),
    decreases b.len() - j,
{
    if j < b.len() {
        assert((a + b)[a.len() + j] == b[j]);
        lemma_line_feeds_shift(a, b, j + 1);
    }
}

proof fn lemma_line_feeds_none(l: Seq<char>, i: int)
    requires
        0 <= i <= l.len(),
        !l.contains('\n'),
    ensures
        line_feeds(l, i) == 0,
    decreases l.len() - i,
{
    if i < l.len() {
        lemma_line_feeds_none(l, i + 1);
    }
}

/// `p` line feeds.
pub open spec fn newlines(p: nat) -> Seq<char> {
    Seq::new(p, |_i: int| '\n')
}

proof fn lemma_one_line_feed()
    ensures
        line_feeds(seq!['\n'], 0) == 1,
{
    assert(line_feeds(seq!['\n'], 1) == 0);
}

proof fn lemma_newlines(p: nat)
    ensures
        line_feeds(newlines(p), 0) == p,
        p == 0 || newlines(p).last() == '\n',
    decreases p,
{
    if p > 0 {
        let s = newlines(p);
        let front = newlines((p - 1) as nat);
        lemma_newlines((p - 1) as nat);
        assert(s =~= front + seq!['\n']);
        lemma_line_feeds_concat(front, seq!['\n'], 0);
        lemma_one_line_feed();
    }
}

/// A recipe line with its evaluated text, `l + "\n"`, counts one line.
proof fn lemma_line_then_rest(l: Seq<char>, z: Seq<char>, m: int)
    requires
        !l.contains('\n'),
        m >= 0,
    ensures
        line_from(l + seq!['\n'] + z, 0, m) == if m == 0 {
            l
        } else {
            line_from(z, 0, m - 1)
        },
{
    if m == 0 {
        lemma_first_line(l, z, 0);
        assert(l.skip(0) =~= l);
    } else {
        let p = l + seq!['\n'];
        lemma_line_feeds_concat(l, seq!['\n'], 0);
        lemma_line_feeds_none(l, 0);
        lemma_one_line_feed();
        assert(l + seq!['\n'] + z =~= p + z);
        lemma_skip_lines(p, z, 0, m);
    }
}

/// The numbers of `body[k..]` grow strictly, and no evaluated line from
/// `k` on holds a line feed.
pub open spec fn numbered_from(body: Seq<RecipeLine>, lines: Seq<Seq<char>>, k: int) -> bool {
    &&& forall|a: int, b: int|
        k <= a < b < body.len() ==> (#[trigger] body[a]).number < (#[trigger] body[b]).number
    &&& forall|j: int| k <= j < lines.len() ==> !(#[trigger] lines[j]).contains('\n')
}

proof fn lemma_rest_line_numbers(body: Seq<RecipeLine>, lines: Seq<Seq<char>>, k: int, n: int, j: int)
    requires
        0 <= k <= j < body.len(),
        j < lines.len(),
        numbered_from(body, lines, k),
        n <= body[k].number,
    ensures
        line_from(spec_script_rest(body, lines, k, n), 0, body[j].number - n) == lines[j],
    decreases j - k,
{
    let number = body[k].number as int;
    let padding = number - n;
    let pad = newlines(padding as nat);
    let rest = spec_script_rest(body, lines, k + 1, n + padding + 1);
    let tail = lines[k] + seq!['\n'] + rest;
    assert(spec_script_rest(body, lines, k, n) =~= pad + tail);
    lemma_newlines(padding as nat);
    if j > k {
        assert(body[k].number < body[j].number);
    }
    lemma_skip_lines(pad, tail, 0, body[j].number - n);
    lemma_line_then_rest(lines[k], rest, body[j].number - n - padding);
    if j > k {
        assert(numbered_from(body, lines, k + 1));
        assert(body[k].number < body[k + 1].number);
        lemma_rest_line_numbers(body, lines, k + 1, n + padding + 1, j);
    }
}

/// In the script of a recipe run by an interpreter command, each line of
/// the body stands on the line whose number it has in the recipe file, so
/// that line numbers in errors from the script match the recipe file's,
/// when line numbers grow along the body and no evaluated line holds a line
/// feed.
pub proof fn lemma_command_script_line_numbers(body: Seq<RecipeLine>, lines: Seq<Seq<char>>, j: int)
    requires
        0 <= j < body.len(),
        j < lines.len(),
        numbered_from(body, lines, 0),
    ensures
        nth_line(spec_script_rest(body, lines, 0, 0), body[j].number as int) == lines[j],
{
    lemma_rest_line_numbers(body, lines, 0, 0, j);
}

proof fn lemma_shebang_lines_shape(lines: Seq<Seq<char>>, count: int, keep: bool)
    requires
        0 <= count <= lines.len(),
        forall|j: int| 0 <= j < count ==> !(#[trigger] lines[j]).contains('\n'),
    ensures
        line_feeds(spec_shebang_lines(lines, count, keep), 0) == count,
        count == 0 || spec_shebang_lines(lines, count, keep).last() == '\n',
    decreases count,
{
    if count > 0 {
        lemma_shebang_lines_shape(lines, count - 1, keep);
        let front = spec_shebang_lines(lines, count - 1, keep);
        let line = if keep {
            lines[count - 1]
        } else {
            Seq::empty()
        };
        assert(spec_shebang_lines(lines, count, keep) =~= front + (line + seq!['\n']));
        lemma_line_feeds_concat(front, line + seq!['\n'], 0);
        lemma_line_feeds_concat(line, seq!['\n'], 0);
        lemma_line_feeds_none(line, 0);
        lemma_one_line_feed();
    }
}

/// In the script of a recipe run by its shebang line, each line of the body
/// after the shebang lines stands on the line whose number it has in the
/// recipe file, when line numbers grow along the body and no evaluated line
/// holds a line feed.
pub proof fn lemma_shebang_script_line_numbers(
    body: Seq<RecipeLine>,
    lines: Seq<Seq<char>>,
    keep: bool,
    j: int,
)
    requires
        leading_shebangs(body) <= j < body.len(),
        j < lines.len(),
        numbered_from(body, lines, 0),
    ensures
        nth_line(
            spec_shebang_lines(lines, leading_shebangs(body) as int, keep) + spec_script_rest(
                body,
                lines,
                leading_shebangs(body) as int,
                leading_shebangs(body) as int,
            ),
            body[j].number as int,
        ) == lines[j],
{
    let s = leading_shebangs(body) as int;
    lemma_leading_shebangs_bound(body);
    lemma_shebang_lines_shape(lines, s, keep);
    lemma_numbers_at_least_positions(body, lines, s);
    let prefix = spec_shebang_lines(lines, s, keep);
    let rest = spec_script_rest(body, lines, s, s);
    lemma_skip_lines(prefix, rest, 0, body[j].number as int);
    assert(numbered_from(body, lines, s));
    lemma_rest_line_numbers(body, lines, s, s, j);
}

proof fn lemma_leading_shebangs_bound(body: Seq<RecipeLine>)
    ensures
        leading_shebangs(body) <= body.len(),
    decreases body.len(),
{
    if body.len() > 0 && body[0].shebang {
        lemma_leading_shebangs_bound(body.drop_first());
    }
}

proof fn lemma_numbers_at_least_positions(body: Seq<RecipeLine>, lines: Seq<Seq<char>>, k: int)
    requires
        0 <= k < body.len(),
        numbered_from(body, lines, 0),
    ensures
        body[k].number >= k,
    decreases k,
{
    if k > 0 {
        lemma_numbers_at_least_positions(body, lines, k - 1);
        assert(body[k - 1].number < body[k].number);
    }
}

impl<'a> Executor<'a> {
    /// The error for a script of `recipe` that `io_error` stopped: the
    /// command line of an interpreter command, or the interpreter and
    /// argument of a shebang line.
    pub fn error(&self, io_error: std::io::Error, recipe: &str) -> (r: ExecutorError)
        ensures
            match *self {
                Executor::Command(interpreter) => r matches ExecutorError::Script {
                    command,
                    io_error: e,
                    recipe: name,
                } && command@ == spec_command_line(
                    interpreter.command.cooked@,
                    cooked_views(interpreter.arguments@),
                ) && e == io_error && name@ == recipe@,
                Executor::Shebang(shebang) => r matches ExecutorError::Shebang {
                    argument,
                    command,
                    io_error: e,
                    recipe: name,
                } && opt_view(argument) == opt_view(shebang.argument) && command@
                    == shebang.interpreter@ && e == io_error && name@ == recipe@,
            },
    {
        match self {
            Executor::Command(interpreter) => {
                let mut command = string_of(interpreter.command.cooked.as_str());
                let mut k: usize = 0;
                while k < interpreter.arguments.len()
                    invariant
                        k <= interpreter.arguments.len(),
                        command@ == spec_command_line(
                            interpreter.command.cooked@,
                            cooked_views(interpreter.arguments@).take(k as int),
                        ),
                    decreases interpreter.arguments.len() - k,
                {
                    push_char(&mut command, ' ');
                    append_str(&mut command, interpreter.arguments[k].cooked.as_str());
                    proof {
                        let next = cooked_views(interpreter.arguments@).take(k + 1);
                        assert(next.drop_last() =~= cooked_views(interpreter.arguments@).take(
                            k as int,
                        ));
                    }
                    k += 1;
                }
                assert(cooked_views(interpreter.arguments@).take(interpreter.arguments.len() as int)
                    =~= cooked_views(interpreter.arguments@));
                ExecutorError::Script { command, io_error, recipe: string_of(recipe) }
            },
            Executor::Shebang(shebang) => {
                let argument = match &shebang.argument {
                    Some(a) => Some(string_of(a.as_str())),
                    None => None,
                };
                ExecutorError::Shebang {
                    argument,
                    command: string_of(shebang.interpreter.as_str()),
                    io_error,
                    recipe: string_of(recipe),
                }
            },
        }
    }

    /// The file name of the script for `recipe`: the recipe name followed by
    /// `extension`, or else by the extension that the interpreter expects.
    pub fn script_filename(&self, recipe: &str, extension: Option<&str>) -> (r: String)
        ensures
            r@ == recipe@ + match extension {
                Some(e) => e@,
                None => spec_default_extension(spec_interpreter_name(*self)),
            },
    {
        let mut r = string_of(recipe);
        match extension {
            Some(e) => r.append(e),
            None => {
                let interpreter = match self {
                    Executor::Command(interpreter) => string_of(interpreter.command.cooked.as_str()),
                    Executor::Shebang(shebang) => shebang.interpreter_filename(),
                };
                let name = interpreter.as_str();
                if is_one_of(name, "cmd", "cmd.exe") {
                    r.append(".bat");
                } else if is_one_of(name, "powershell", "powershell.exe") || is_one_of(
                    name,
                    "pwsh",
                    "pwsh.exe",
                ) {
                    r.append(".ps1");
                } else {
                    assert(spec_default_extension(name@) =~= Seq::<char>::empty());
                }
            },
        }
        r
    }

    /// The script text for a recipe with body `body`, given the evaluated
    /// text of each line, including blank lines so that line numbers in errors
    /// from the script match the recipe file's.
    pub fn script(&self, body: &[RecipeLine], lines: &[String], windows: bool) -> (r: String)
        requires
            self is Shebang ==> leading_shebangs(body@) <= lines.len(),
            forall|k: int| 0 <= k < body.len() ==> #[trigger] body@[k].number + body.len() < usize::MAX,
        ensures
            ({
                let shebangs = leading_shebangs(body@) as int;
                match *self {
                    Executor::Shebang(shebang) => r@ == spec_shebang_lines(
                        views(lines@),
                        shebangs,
                        !(windows || spec_interpreter_filename(shebang.interpreter@) == "cmd"@
                            || spec_interpreter_filename(shebang.interpreter@) == "cmd.exe"@),
                    ) + spec_script_rest(body@, views(lines@), shebangs, shebangs),
                    Executor::Command(_) => r@ == spec_script_rest(body@, views(lines@), 0, 0),
                }
            }),
    {
        let mut script = String::new();
        let mut n: usize = 0;
        let mut shebangs: usize = 0;
        assert(body@.subrange(0, body.len() as int) =~= body@);
        if body.len() > 0 {
            assert(body@[0].number + body.len() < usize::MAX);
        }
        while shebangs < body.len() && body[shebangs].shebang
            invariant
                shebangs <= body.len(),
                forall|k: int| 0 <= k < shebangs ==> (#[trigger] body@[k]).shebang,
                leading_shebangs(body@) == shebangs + leading_shebangs(body@.subrange(shebangs as int, body.len() as int)),
            decreases body.len() - shebangs,
        {
            assert(body@.subrange(shebangs as int, body.len() as int).drop_first() =~= body@.subrange(
                shebangs + 1,
                body.len() as int,
            ));
            shebangs += 1;
        }
        assert(leading_shebangs(body@.subrange(shebangs as int, body.len() as int)) == 0);
        if let Executor::Shebang(shebang) = self {
            let keep = shebang.include_shebang_line(windows);
            while n < shebangs
                invariant
                    n <= shebangs <= lines.len(),
                    script@ == spec_shebang_lines(views(lines@), n as int, keep),
                decreases shebangs - n,
            {
                if keep {
                    script.append(lines[n].as_str());
                }
                push_char(&mut script, '\n');
                proof {
                    assert(views(lines@)[n as int] == lines@[n as int]@);
                }
                n += 1;
            }
        }
        let ghost prefix = script@;
        let ghost first = n as int;
        let mut k = n;
        while k < body.len() && k < lines.len()
            invariant
                first <= k,
                k <= body.len(),
                n >= k,
                n <= (usize::MAX - body.len() - 1) + k,
                forall|j: int| 0 <= j < body.len() ==> #[trigger] body@[j].number + body.len() < usize::MAX,
                prefix + spec_script_rest(body@, views(lines@), first, first) == script@ + spec_script_rest(
                    body@,
                    views(lines@),
                    k as int,
                    n as int,
                ),
            decreases body.len() - k,
        {
            let ghost before = script@;
            let number = body[k].number;
            let ghost padding = if n < number {
                number - n
            } else {
                0
            };
            let ghost n0 = n;
            while n < number
                invariant
                    n0 <= n,
                    n <= number || n == n0,
                    script@ == before + Seq::new((n - n0) as nat, |_i: int| '\n'),
                decreases number - n,
            {
                push_char(&mut script, '\n');
                assert(script@ =~= before + Seq::new((n + 1 - n0) as nat, |_i: int| '\n'));
                n += 1;
            }
            script.append(lines[k].as_str());
            push_char(&mut script, '\n');
            n += 1;
            proof {
                assert(views(lines@)[k as int] == lines@[k as int]@);
                assert(n == n0 + padding + 1);
                assert(script@ =~= before + (Seq::new(padding as nat, |_i: int| '\n') + views(lines@)[k as int] + seq!['\n']));
            }
            k += 1;
        }
        script
    }
}

} // verus!
