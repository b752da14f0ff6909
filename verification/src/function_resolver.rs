//! Checks that every function an expression calls exists and takes that
//! many arguments, and that every variable it reads is defined.
use crate::compilation::{CompileError, CompileErrorKind};
use crate::token::Token;
use crate::constants::{constants_table, spec_constants_table};
use crate::expression::Expression;
use crate::justfile::{first_named, lemma_first_named};
use crate::reference::{expression_references, reference_view, reference_views, Reference, ReferenceView};
use crate::text::{str_equal, string_of, string_views};
use vstd::prelude::*;

verus! {

/// A function defined in a recipe file.
#[derive(Debug, PartialEq, Eq)]
pub struct FunctionDefinition {
    pub body: Expression,
    pub name: String,
    pub parameters: Vec<String>,
}

/// A built-in function and how many arguments it takes, from `min` to
/// `max`.
#[derive(Debug, PartialEq, Eq)]
pub struct Builtin {
    pub name: String,
    pub min: usize,
    pub max: usize,
}

/// Why a name does not resolve, and the token of the name.
pub enum ResolveFailure {
    ArgumentCount { function: Seq<char>, found: nat, min: nat, max: nat, token: Token },
    UnknownFunction { function: Seq<char>, token: Token },
    UndefinedVariable { variable: Seq<char>, token: Token },
}

/// The failure an error reports, if it reports one: its kind and the token
/// it points at.
pub open spec fn failure_of(e: CompileError) -> Option<ResolveFailure> {
    match e.kind {
        CompileErrorKind::FunctionArgumentCountMismatch { function, found, min, max } => Some(
            ResolveFailure::ArgumentCount {
                function: function@,
                found: found as nat,
                min: min as nat,
                max: max as nat,
                token: e.token,
            },
        ),
        CompileErrorKind::UnknownFunction { function } => Some(
            ResolveFailure::UnknownFunction { function: function@, token: e.token },
        ),
        CompileErrorKind::UndefinedVariable { variable } => Some(
            ResolveFailure::UndefinedVariable { variable: variable@, token: e.token },
        ),
        _ => None,
    }
}

/// The names of some functions.
pub open spec fn function_names(functions: Seq<FunctionDefinition>) -> Seq<Seq<char>> {
    functions.map_values(|f: FunctionDefinition| f.name@)
}

/// The names of some built-in functions.
pub open spec fn builtin_names(builtins: Seq<Builtin>) -> Seq<Seq<char>> {
    builtins.map_values(|b: Builtin| b.name@)
}

/// Whether `name` is one of the constants.
pub open spec fn is_constant_name(name: Seq<char>) -> bool {
    exists|i: int| 0 <= i < spec_constants_table().len() && (#[trigger] spec_constants_table()[i]).0@ == name
}

/// What is wrong with calling `name`, written at `token`, with `found`
/// arguments: a function of the file with that name takes precedence over
/// a built-in one.
pub open spec fn call_failure(
    functions: Seq<FunctionDefinition>,
    builtins: Seq<Builtin>,
    name: Seq<char>,
    found: nat,
    token: Token,
) -> Option<ResolveFailure> {
    match first_named(function_names(functions), name) {
        Some(k) => if functions[k].parameters.len() == found {
            None
        } else {
            Some(ResolveFailure::ArgumentCount {
                function: name,
                found,
                min: functions[k].parameters.len() as nat,
                max: functions[k].parameters.len() as nat,
                token,
            })
        },
        None => match first_named(builtin_names(builtins), name) {
            Some(k) => if builtins[k].min <= found <= builtins[k].max {
                None
            } else {
                Some(ResolveFailure::ArgumentCount {
                    function: name,
                    found,
                    min: builtins[k].min as nat,
                    max: builtins[k].max as nat,
                    token,
                })
            },
            None => Some(ResolveFailure::UnknownFunction { function: name, token }),
        },
    }
}

/// A call of a name that no function of the file has and that a built-in
/// has (`builtins[k]`, the first so named) passes exactly when the number
/// of arguments lies within that built-in's range; otherwise it fails with
/// an argument-count mismatch that names the call, the number of arguments
/// and the range, and points at the call.
pub proof fn lemma_builtin_call_arity(
    functions: Seq<FunctionDefinition>,
    builtins: Seq<Builtin>,
    name: Seq<char>,
    found: nat,
    token: Token,
    k: int,
)
    requires
        forall|i: int| 0 <= i < functions.len() ==> #[trigger] functions[i].name@ != name,
        0 <= k < builtins.len(),
        builtins[k].name@ == name,
        forall|j: int| 0 <= j < k ==> #[trigger] builtins[j].name@ != name,
    ensures
        call_failure(functions, builtins, name, found, token) is None <==> builtins[k].min <= found
            && found <= builtins[k].max,
        found < builtins[k].min || builtins[k].max < found ==> call_failure(
            functions,
            builtins,
            name,
            found,
            token,
        ) == Some(
            ResolveFailure::ArgumentCount {
                function: name,
                found,
                min: builtins[k].min as nat,
                max: builtins[k].max as nat,
                token,
            },
        ),
{
    let fnames = function_names(functions);
    assert forall|i: int| 0 <= i < fnames.len() implies #[trigger] fnames[i] != name by {
        assert(fnames[i] == functions[i].name@);
    }
    let bnames = builtin_names(builtins);
    assert forall|j: int| 0 <= j < k implies #[trigger] bnames[j] != name by {
        assert(bnames[j] == builtins[j].name@);
    }
    lemma_first_named(bnames, name, k);
}

/// A call of a function of the file (`functions[k]`, the first so named)
/// passes exactly when it has as many arguments as the function has
/// parameters, whatever built-in has the same name; otherwise it fails with
/// an argument-count mismatch whose range is that one number.
pub proof fn lemma_function_call_arity(
    functions: Seq<FunctionDefinition>,
    builtins: Seq<Builtin>,
    name: Seq<char>,
    found: nat,
    token: Token,
    k: int,
)
    requires
        0 <= k < functions.len(),
        functions[k].name@ == name,
        forall|j: int| 0 <= j < k ==> #[trigger] functions[j].name@ != name,
    ensures
        call_failure(functions, builtins, name, found, token) is None <==> functions[k].parameters.len()
            == found,
        functions[k].parameters.len() != found ==> call_failure(functions, builtins, name, found, token)
            == Some(
            ResolveFailure::ArgumentCount {
                function: name,
                found,
                min: functions[k].parameters.len() as nat,
                max: functions[k].parameters.len() as nat,
                token,
            },
        ),
{
    let fnames = function_names(functions);
    assert forall|j: int| 0 <= j < k implies #[trigger] fnames[j] != name by {
        assert(fnames[j] == functions[j].name@);
    }
    lemma_first_named(fnames, name, k);
}

/// A call of a name that neither a function of the file nor a built-in has
/// fails as a call of an unknown function, pointing at the call.
pub proof fn lemma_unknown_call(
    functions: Seq<FunctionDefinition>,
    builtins: Seq<Builtin>,
    name: Seq<char>,
    found: nat,
    token: Token,
)
    requires
        forall|i: int| 0 <= i < functions.len() ==> #[trigger] functions[i].name@ != name,
        forall|j: int| 0 <= j < builtins.len() ==> #[trigger] builtins[j].name@ != name,
    ensures
        call_failure(functions, builtins, name, found, token) == Some(
            ResolveFailure::UnknownFunction { function: name, token },
        ),
{
    let fnames = function_names(functions);
    assert forall|i: int| 0 <= i < fnames.len() implies #[trigger] fnames[i] != name by {
        assert(fnames[i] == functions[i].name@);
    }
    let bnames = builtin_names(builtins);
    assert forall|j: int| 0 <= j < bnames.len() implies #[trigger] bnames[j] != name by {
        assert(bnames[j] == builtins[j].name@);
    }
}

/// What is wrong with reading `name`, written at `token`, where
/// `parameters` are bound and `assignments` are the variables of the file.
pub open spec fn variable_failure(
    parameters: Seq<Seq<char>>,
    assignments: Seq<Seq<char>>,
    name: Seq<char>,
    token: Token,
) -> Option<ResolveFailure> {
    if parameters.contains(name) || assignments.contains(name) || is_constant_name(name) {
        None
    } else {
        Some(ResolveFailure::UndefinedVariable { variable: name, token })
    }
}

/// A variable resolves exactly when its name is bound as a parameter,
/// assigned in the file, or one of the constants; otherwise it fails as an
/// undefined variable that names it and points at where it is read.
pub proof fn lemma_variable_resolution(
    parameters: Seq<Seq<char>>,
    assignments: Seq<Seq<char>>,
    name: Seq<char>,
    token: Token,
)
    ensures
        variable_failure(parameters, assignments, name, token) is None <==> (exists|i: int|
            0 <= i < parameters.len() && #[trigger] parameters[i] == name) || (exists|i: int|
            0 <= i < assignments.len() && #[trigger] assignments[i] == name) || exists|i: int|
            0 <= i < spec_constants_table().len() && (#[trigger] spec_constants_table()[i]).0@ == name,
        variable_failure(parameters, assignments, name, token) is Some ==> variable_failure(
            parameters,
            assignments,
            name,
            token,
        ) == Some(ResolveFailure::UndefinedVariable { variable: name, token }),
{
}

/// The first failure that `check` finds in `refs`.
pub open spec fn first_failure(
    refs: Seq<ReferenceView>,
    check: spec_fn(ReferenceView) -> Option<ResolveFailure>,
) -> Option<ResolveFailure>
    decreases refs.len(),
{
    if refs.len() == 0 {
        None
    } else {
        match check(refs[0]) {
            Some(f) => Some(f),
            None => first_failure(refs.drop_first(), check),
        }
    }
}

/// A result that reports `failure` when there is one and succeeds when
/// there is none.
pub open spec fn reports(r: Result<(), CompileError>, failure: Option<ResolveFailure>) -> bool {
    match failure {
        None => r is Ok,
        Some(f) => r matches Err(k) && failure_of(k) == Some(f),
    }
}

/// Every call is checked, and no variable.
pub open spec fn call_check(functions: Seq<FunctionDefinition>, builtins: Seq<Builtin>) -> spec_fn(
    ReferenceView,
) -> Option<ResolveFailure> {
    |r: ReferenceView|
        match r {
            ReferenceView::Call { name, arguments, token } => call_failure(
                functions,
                builtins,
                name,
                arguments,
                token,
            ),
            ReferenceView::Variable { .. } => None,
        }
}

/// Every call and every variable is checked.
pub open spec fn reference_check(
    assignments: Seq<Seq<char>>,
    functions: Seq<FunctionDefinition>,
    builtins: Seq<Builtin>,
    parameters: Seq<Seq<char>>,
) -> spec_fn(ReferenceView) -> Option<ResolveFailure> {
    |r: ReferenceView|
        match r {
            ReferenceView::Call { name, arguments, token } => call_failure(
                functions,
                builtins,
                name,
                arguments,
                token,
            ),
            ReferenceView::Variable { name, token } => variable_failure(
                parameters,
                assignments,
                name,
                token,
            ),
        }
}

proof fn lemma_first_failure_step(
    refs: Seq<ReferenceView>,
    i: int,
    check: spec_fn(ReferenceView) -> Option<ResolveFailure>,
)
    requires
        0 <= i < refs.len(),
    ensures
        first_failure(refs.subrange(i, refs.len() as int), check) == match check(refs[i]) {
            Some(f) => Some(f),
            None => first_failure(refs.subrange(i + 1, refs.len() as int), check),
        },
{
    let rest = refs.subrange(i, refs.len() as int);
    assert(rest.drop_first() =~= refs.subrange(i + 1, refs.len() as int));
}

/// Resolution fails exactly when some reference fails its check, and the
/// failure reported is that of the first such reference.
pub proof fn lemma_first_failure_is_first_unresolved(
    refs: Seq<ReferenceView>,
    check: spec_fn(ReferenceView) -> Option<ResolveFailure>,
)
    ensures
        first_failure(refs, check) is None <==> forall|i: int|
            0 <= i < refs.len() ==> check(#[trigger] refs[i]) is None,
        first_failure(refs, check) is Some ==> exists|i: int|
            0 <= i < refs.len() && check(#[trigger] refs[i]) == first_failure(refs, check) && forall|
                j: int,
            |
                0 <= j < i ==> check(#[trigger] refs[j]) is None,
    decreases refs.len(),
{
    if refs.len() > 0 {
        let rest = refs.drop_first();
        lemma_first_failure_is_first_unresolved(rest, check);
        assert forall|i: int| 1 <= i < refs.len() implies refs[i] == rest[i - 1] by {}
        if check(refs[0]) is None {
            if first_failure(rest, check) is Some {
                let i = choose|i: int|
                    0 <= i < rest.len() && check(#[trigger] rest[i]) == first_failure(rest, check)
                        && forall|j: int| 0 <= j < i ==> check(#[trigger] rest[j]) is None;
                assert(check(refs[i + 1]) == first_failure(refs, check));
                assert forall|j: int| 0 <= j < i + 1 implies check(#[trigger] refs[j]) is None by {
                    if j > 0 {
                        assert(refs[j] == rest[j - 1]);
                    }
                }
            } else {
                assert forall|i: int| 0 <= i < refs.len() implies check(#[trigger] refs[i]) is None by {
                    if i > 0 {
                        assert(refs[i] == rest[i - 1]);
                    }
                }
            }
        } else {
            assert(check(refs[0]) == first_failure(refs, check));
        }
    }
}

/// The position of `name` in `names`.
fn position(names: &Vec<String>, name: &str) -> (r: Option<usize>)
    ensures
        match r {
            Some(k) => first_named(string_views(names@), name@) == Some(k as int) && k < names.len(),
            None => first_named(string_views(names@), name@) is None,
        },
{
    let ghost seen = string_views(names@);
    let mut i: usize = 0;
    while i < names.len()
        invariant
            seen == string_views(names@),
            i <= names.len(),
            forall|j: int| 0 <= j < i ==> #[trigger] seen[j] != name@,
        decreases names.len() - i,
    {
        if str_equal(names[i].as_str(), name) {
            proof {
                lemma_first_named(seen, name@, i as int);
            }
            return Some(i);
        }
        i += 1;
    }
    None
}

proof fn lemma_contains_first_named(names: Seq<Seq<char>>, name: Seq<char>)
    ensures
        names.contains(name) <==> first_named(names, name) is Some,
{
    if names.contains(name) {
        let k = choose|k: int| 0 <= k < names.len() && names[k] == name;
        assert(names[k] == name);
    }
}

/// Whether `name` is one of the constants.
fn is_constant(name: &str) -> (r: bool)
    ensures
        r == is_constant_name(name@),
{
    let table = constants_table();
    let mut i: usize = 0;
    while i < table.len()
        invariant
            table@ == spec_constants_table(),
            i <= table.len(),
            forall|j: int| 0 <= j < i ==> (#[trigger] spec_constants_table()[j]).0@ != name@,
        decreases table.len() - i,
    {
        if str_equal(table[i].0, name) {
            assert(spec_constants_table()[i as int].0@ == name@);
            return true;
        }
        i += 1;
    }
    false
}

/// Looks up the functions an expression calls and the variables it reads.
pub struct FunctionResolver<'a> {
    /// The names of the variables of the file
    pub assignments: &'a Vec<String>,
    pub functions: &'a Vec<FunctionDefinition>,
    pub builtins: &'a Vec<Builtin>,
}

impl<'a> FunctionResolver<'a> {
    /// Checks the body of each function of the file, in order, against the
    /// variables `assignments` and the functions `functions` and
    /// `builtins`; the first failure is reported.
    pub fn resolve_functions(
        assignments: &Vec<String>,
        functions: &Vec<FunctionDefinition>,
        builtins: &Vec<Builtin>,
    ) -> (r: Result<(), CompileError>)
        ensures
            r is Ok <==> forall|k: int|
                0 <= k < functions@.len() ==> first_failure(
                    expression_references(#[trigger] functions@[k].body),
                    reference_check(
                        string_views(assignments@),
                        functions@,
                        builtins@,
                        string_views(functions@[k].parameters@),
                    ),
                ) is None,
            r is Err ==> exists|k: int|
                0 <= k < functions@.len() && (forall|j: int|
                    0 <= j < k ==> first_failure(
                        expression_references(#[trigger] functions@[j].body),
                        reference_check(
                            string_views(assignments@),
                            functions@,
                            builtins@,
                            string_views(functions@[j].parameters@),
                        ),
                    ) is None) && reports(
                    r,
                    first_failure(
                        expression_references(functions@[k].body),
                        reference_check(
                            string_views(assignments@),
                            functions@,
                            builtins@,
                            string_views(functions@[k].parameters@),
                        ),
                    ),
                ) && first_failure(
                    expression_references(functions@[k].body),
                    reference_check(
                        string_views(assignments@),
                        functions@,
                        builtins@,
                        string_views(functions@[k].parameters@),
                    ),
                ) is Some,
    {
        let resolver = FunctionResolver { assignments, functions, builtins };
        let mut k: usize = 0;
        while k < functions.len()
            invariant
                k <= functions.len(),
                resolver.assignments == assignments,
                resolver.functions == functions,
                resolver.builtins == builtins,
                forall|j: int|
                    0 <= j < k ==> first_failure(
                        expression_references(#[trigger] functions@[j].body),
                        reference_check(
                            string_views(assignments@),
                            functions@,
                            builtins@,
                            string_views(functions@[j].parameters@),
                        ),
                    ) is None,
            decreases functions.len() - k,
        {
            let function = &functions[k];
            let result = resolver.resolve_expression(&function.body, &function.parameters);
            if result.is_err() {
                return result;
            }
            k += 1;
        }
        Ok(())
    }

    /// Checks the calls of `expression`, and none of its variables,
    /// against `functions` and `builtins`; the first failure is reported.
    pub fn resolve_calls(
        functions: &Vec<FunctionDefinition>,
        builtins: &Vec<Builtin>,
        expression: &Expression,
    ) -> (r: Result<(), CompileError>)
        ensures
            reports(
                r,
                first_failure(expression_references(*expression), call_check(functions@, builtins@)),
            ),
    {
        let no_assignments: Vec<String> = Vec::new();
        let resolver = FunctionResolver { assignments: &no_assignments, functions, builtins };
        let refs = expression.references();
        let ghost all = reference_views(refs@);
        let ghost check = call_check(functions@, builtins@);
        assert(all.subrange(0, all.len() as int) =~= all);
        let mut i: usize = 0;
        while i < refs.len()
            invariant
                i <= refs.len(),
                all == reference_views(refs@),
                all == expression_references(*expression),
                check == call_check(functions@, builtins@),
                resolver.functions == functions,
                resolver.builtins == builtins,
                first_failure(all, check) == first_failure(all.subrange(i as int, all.len() as int), check),
            decreases refs.len() - i,
        {
            proof {
                lemma_first_failure_step(all, i as int, check);
            }
            match &refs[i] {
                Reference::Call { name, arguments, token } => {
                    let result = resolver.resolve_call(name.as_str(), *token, *arguments);
                    if result.is_err() {
                        return result;
                    }
                },
                Reference::Variable { .. } => {},
            }
            i += 1;
        }
        proof {
            assert(all.subrange(i as int, all.len() as int).len() == 0);
        }
        Ok(())
    }

    /// Checks every call and every variable of `expression`, where
    /// `parameters` are bound; the first failure is reported.
    pub fn resolve_expression(&self, expression: &Expression, parameters: &Vec<String>) -> (r:
        Result<(), CompileError>)
        ensures
            reports(
                r,
                first_failure(
                    expression_references(*expression),
                    reference_check(
                        string_views(self.assignments@),
                        self.functions@,
                        self.builtins@,
                        string_views(parameters@),
                    ),
                ),
            ),
    {
        let refs = expression.references();
        let ghost all = reference_views(refs@);
        let ghost check = reference_check(
            string_views(self.assignments@),
            self.functions@,
            self.builtins@,
            string_views(parameters@),
        );
        assert(all.subrange(0, all.len() as int) =~= all);
        let mut i: usize = 0;
        while i < refs.len()
            invariant
                i <= refs.len(),
                all == reference_views(refs@),
                all == expression_references(*expression),
                check == reference_check(
                    string_views(self.assignments@),
                    self.functions@,
                    self.builtins@,
                    string_views(parameters@),
                ),
                first_failure(all, check) == first_failure(all.subrange(i as int, all.len() as int), check),
            decreases refs.len() - i,
        {
            proof {
                lemma_first_failure_step(all, i as int, check);
            }
            let result = match &refs[i] {
                Reference::Call { name, arguments, token } => self.resolve_call(
                    name.as_str(),
                    *token,
                    *arguments,
                ),
                Reference::Variable { name, token } => self.resolve_variable(
                    name.as_str(),
                    *token,
                    parameters,
                ),
            };
            if result.is_err() {
                return result;
            }
            i += 1;
        }
        proof {
            assert(all.subrange(i as int, all.len() as int).len() == 0);
        }
        Ok(())
    }

    /// Checks that `name`, written at `token`, is a parameter, a variable
    /// of the file or a constant; the error points at `token`.
    pub fn resolve_variable(&self, name: &str, token: Token, parameters: &Vec<String>) -> (r: Result<
        (),
        CompileError,
    >)
        ensures
            reports(
                r,
                variable_failure(
                    string_views(parameters@),
                    string_views(self.assignments@),
                    name@,
                    token,
                ),
            ),
    {
        proof {
            lemma_contains_first_named(string_views(parameters@), name@);
            lemma_contains_first_named(string_views(self.assignments@), name@);
        }
        if position(parameters, name).is_some() {
            return Ok(());
        }
        if position(self.assignments, name).is_some() {
            return Ok(());
        }
        if is_constant(name) {
            return Ok(());
        }
        Err(CompileError::new(token, CompileErrorKind::UndefinedVariable { variable: string_of(name) }))
    }

    /// Checks that a function called `name`, written at `token`, exists and
    /// takes `argument_count` arguments; the error points at `token`.
    pub fn resolve_call(&self, name: &str, token: Token, argument_count: usize) -> (r: Result<
        (),
        CompileError,
    >)
        ensures
            reports(r, call_failure(self.functions@, self.builtins@, name@, argument_count as nat, token)),
    {
        match self.function_index(name) {
            Some(k) => {
                let expected = self.functions[k].parameters.len();
                if expected != argument_count {
                    return Err(
                        CompileError::new(
                            token,
                            CompileErrorKind::FunctionArgumentCountMismatch {
                                function: string_of(name),
                                found: argument_count,
                                min: expected,
                                max: expected,
                            },
                        ),
                    );
                }
                Ok(())
            },
            None => match self.builtin_index(name) {
                Some(k) => {
                    let builtin = &self.builtins[k];
                    if argument_count < builtin.min || builtin.max < argument_count {
                        return Err(
                            CompileError::new(
                                token,
                                CompileErrorKind::FunctionArgumentCountMismatch {
                                    function: string_of(name),
                                    found: argument_count,
                                    min: builtin.min,
                                    max: builtin.max,
                                },
                            ),
                        );
                    }
                    Ok(())
                },
                None => Err(
                    CompileError::new(
                        token,
                        CompileErrorKind::UnknownFunction { function: string_of(name) },
                    ),
                ),
            },
        }
    }

    /// The position of the function of the file called `name`.
    fn function_index(&self, name: &str) -> (r: Option<usize>)
        ensures
            match r {
                Some(k) => first_named(function_names(self.functions@), name@) == Some(k as int)
                    && k < self.functions.len(),
                None => first_named(function_names(self.functions@), name@) is None,
            },
    {
        let ghost names = function_names(self.functions@);
        let mut i: usize = 0;
        while i < self.functions.len()
            invariant
                names == function_names(self.functions@),
                i <= self.functions.len(),
                forall|j: int| 0 <= j < i ==> #[trigger] names[j] != name@,
            decreases self.functions.len() - i,
        {
            if str_equal(self.functions[i].name.as_str(), name) {
                proof {
                    lemma_first_named(names, name@, i as int);
                }
                return Some(i);
            }
            i += 1;
        }
        None
    }

    /// The position of the built-in function called `name`.
    fn builtin_index(&self, name: &str) -> (r: Option<usize>)
        ensures
            match r {
                Some(k) => first_named(builtin_names(self.builtins@), name@) == Some(k as int) && k
                    < self.builtins.len(),
                None => first_named(builtin_names(self.builtins@), name@) is None,
            },
    {
        let ghost names = builtin_names(self.builtins@);
        let mut i: usize = 0;
        while i < self.builtins.len()
            invariant
                names == builtin_names(self.builtins@),
                i <= self.builtins.len(),
                forall|j: int| 0 <= j < i ==> #[trigger] names[j] != name@,
            decreases self.builtins.len() - i,
        {
            if str_equal(self.builtins[i].name.as_str(), name) {
                proof {
                    lemma_first_named(names, name@, i as int);
                }
                return Some(i);
            }
            i += 1;
        }
        None
    }
}

} // verus!
