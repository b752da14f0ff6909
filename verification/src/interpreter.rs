//! The command that runs a script, with its arguments.
use crate::text::{string_of, string_views};
use vstd::prelude::*;
use vstd::string::*;

verus! {

/// A command and its arguments.
#[derive(Debug, PartialEq, Eq)]
pub struct Interpreter<T> {
    pub arguments: Vec<T>,
    pub command: T,
}

/// The text of an interpreter: the command, then `, ` and each argument.
pub open spec fn spec_interpreter_text(command: Seq<char>, arguments: Seq<Seq<char>>) -> Seq<char>
    decreases arguments.len(),
{
    if arguments.len() == 0 {
        command
    } else {
        spec_interpreter_text(command, arguments.drop_last()) + seq![',', ' '] + arguments.last()
    }
}

impl Interpreter<String> {
    /// The interpreter of scripts that name none: `sh -eu`.
    pub fn default_script_interpreter() -> (r: Interpreter<String>)
        ensures
            r.command@ == "sh"@,
            string_views(r.arguments@) == seq!["-eu"@],
    {
        let r = Interpreter { arguments: vec![string_of("-eu")], command: string_of("sh") };
        assert(string_views(r.arguments@) =~= seq!["-eu"@]);
        r
    }

    /// The text of this interpreter, as in `sh, -eu`.
    pub fn to_string(&self) -> (r: String)
        ensures
            r@ == spec_interpreter_text(self.command@, string_views(self.arguments@)),
    {
        let mut r = string_of(self.command.as_str());
        let mut i: usize = 0;
        while i < self.arguments.len()
            invariant
                i <= self.arguments.len(),
                r@ == spec_interpreter_text(
                    self.command@,
                    string_views(self.arguments@.subrange(0, i as int)),
                ),
            decreases self.arguments.len() - i,
        {
            let ghost before = r@;
            r.append(", ");
            r.append(self.arguments[i].as_str());
            proof {
                reveal_strlit(", ");
                let views = string_views(self.arguments@.subrange(0, i + 1));
                assert(views.drop_last() =~= string_views(self.arguments@.subrange(0, i as int)));
                assert(views.last() == self.arguments@[i as int]@);
                assert(r@ =~= before + seq![',', ' '] + self.arguments@[i as int]@);
            }
            i += 1;
        }
        assert(self.arguments@.subrange(0, self.arguments.len() as int) =~= self.arguments@);
        r
    }
}

} // verus!
