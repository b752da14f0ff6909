//! A command of a recipe body: one line, or several joined by trailing
//! backslashes, after evaluation.
use crate::text::{append_str, chars_of, spec_trim, string_from_chars, string_of, trim_bounds};
use vstd::prelude::*;

verus! {

/// A command of a recipe body, after evaluation.
#[derive(Debug, PartialEq, Eq)]
pub struct Directive {
    /// The evaluated text, with the backslashes that joined its lines removed
    pub evaluated: String,
    /// For each line that ended in a backslash, the length of the text up to
    /// and including that backslash
    pub continuations: Vec<usize>,
}

/// An evaluated line of a recipe body, and whether it ends in a backslash
/// that joins it to the next line.
#[derive(Debug, PartialEq, Eq)]
pub struct EvaluatedLine {
    pub text: String,
    pub continuation: bool,
}

/// The mark at the start of a command that asks for it not to be echoed.
pub const QUIET: char = '@';

/// Whether `s` starts with the quiet mark.
pub open spec fn starts_quiet(s: Seq<char>) -> bool {
    s.len() > 0 && s[0] == QUIET
}

/// The text of `d` without its quiet mark.
pub open spec fn spec_evaluated_str(d: Directive) -> Seq<char> {
    if starts_quiet(d.evaluated@) {
        d.evaluated@.drop_first()
    } else {
        d.evaluated@
    }
}

/// The pieces of `rest` split at the continuations `conts`, each trimmed
/// and followed by a space, then the trimmed remainder; `consumed`
/// characters came before `rest`. None where a continuation does not fall
/// inside what is left.
pub open spec fn display_parts(rest: Seq<char>, conts: Seq<usize>, consumed: int) -> Option<Seq<char>>
    decreases conts.len(),
{
    if conts.len() == 0 {
        Some(spec_trim(rest))
    } else {
        let idx = conts[0] - consumed - 1;
        if 0 <= idx <= rest.len() {
            match display_parts(rest.skip(idx), conts.drop_first(), consumed + idx) {
                Some(tail) => Some(spec_trim(rest.take(idx)) + seq![' '] + tail),
                None => None,
            }
        } else {
            None
        }
    }
}

/// How `d` is shown: its text without the quiet mark, its lines joined
/// by single spaces.
pub open spec fn spec_display(d: Directive) -> Option<Seq<char>> {
    if d.continuations@.len() == 0 {
        Some(spec_evaluated_str(d))
    } else {
        display_parts(spec_evaluated_str(d), d.continuations@, 0)
    }
}

/// The text, continuations and number of lines read when `lines[i..]` are
/// joined onto `command`: a line that ends in a backslash is joined to the
/// next, losing its last character; the first line that does not ends the
/// command.
pub open spec fn parse_from(
    lines: Seq<EvaluatedLine>,
    i: int,
    command: Seq<char>,
    conts: Seq<usize>,
) -> (Seq<char>, Seq<usize>, int)
    decreases lines.len() - i,
{
    if 0 <= i < lines.len() {
        let c = command + lines[i].text@;
        if lines[i].continuation {
            parse_from(
                lines,
                i + 1,
                if c.len() > 0 {
                    c.drop_last()
                } else {
                    c
                },
                conts.push(c.len() as usize),
            )
        } else {
            (c, conts, i + 1)
        }
    } else {
        (command, conts, i)
    }
}

impl Directive {
    /// Whether the command starts with the quiet mark.
    pub fn is_quiet(&self) -> (r: bool)
        ensures
            r == starts_quiet(self.evaluated@),
    {
        self.evaluated.unicode_len() > 0 && self.evaluated.get_char(0) == QUIET
    }

    /// The text without its quiet mark.
    pub fn as_evaluated_str(&self) -> (r: String)
        ensures
            r@ == spec_evaluated_str(*self),
    {
        let chars = chars_of(self.evaluated.as_str());
        if self.is_quiet() {
            string_from_chars(chars.as_slice(), 1, chars.len())
        } else {
            string_of(self.evaluated.as_str())
        }
    }

    /// The command as shown: its lines joined by single spaces.
    pub fn to_string(&self) -> (r: String)
        requires
            spec_display(*self) is Some,
        ensures
            r@ == spec_display(*self)->0,
    {
        let text = self.as_evaluated_str();
        if self.continuations.len() == 0 {
            return text;
        }
        let rest = chars_of(text.as_str());
        let ghost conts = self.continuations@;
        let mut out = String::new();
        let mut consumed: usize = 0;
        let mut k: usize = 0;
        assert(rest@.skip(0) =~= rest@);
        assert(conts.skip(0) =~= conts);
        while k < self.continuations.len()
            invariant
                rest@ == spec_evaluated_str(*self),
                conts == self.continuations@,
                k <= conts.len(),
                consumed <= rest.len(),
                display_parts(rest@.skip(consumed as int), conts.skip(k as int), consumed as int) is Some,
                spec_display(*self) == Some(
                    out@ + display_parts(rest@.skip(consumed as int), conts.skip(k as int), consumed as int)->0,
                ),
            decreases conts.len() - k,
        {
            let ghost left = rest@.skip(consumed as int);
            let ghost tail_conts = conts.skip(k as int);
            proof {
                assert(tail_conts[0] == conts[k as int]);
                assert(tail_conts.drop_first() =~= conts.skip(k + 1));
            }
            let idx = self.continuations[k] - consumed - 1;
            let part = string_from_chars(rest.as_slice(), consumed, consumed + idx);
            let part_chars = chars_of(part.as_str());
            let (from, to) = trim_bounds(part_chars.as_slice(), 0, part_chars.len());
            let trimmed = string_from_chars(part_chars.as_slice(), from, to);
            append_str(&mut out, trimmed.as_str());
            append_str(&mut out, " ");
            proof {
                reveal_strlit(" ");
                assert(left.take(idx as int) =~= part@);
                assert(left.skip(idx as int) =~= rest@.skip(consumed + idx));
            }
            consumed = consumed + idx;
            k += 1;
        }
        let last = string_from_chars(rest.as_slice(), consumed, rest.len());
        let last_chars = chars_of(last.as_str());
        let (from, to) = trim_bounds(last_chars.as_slice(), 0, last_chars.len());
        let trimmed = string_from_chars(last_chars.as_slice(), from, to);
        append_str(&mut out, trimmed.as_str());
        proof {
            assert(conts.skip(k as int).len() == 0);
            assert(rest@.skip(consumed as int) =~= last@);
        }
        out
    }

    /// A parser of commands.
    pub fn parser() -> (r: DirectiveParser)
        ensures
            r.consumed() == 0,
    {
        DirectiveParser { lines_consumed: 0 }
    }
}

/// Reads commands from the evaluated lines of a recipe body, counting the
/// lines it has read.
pub struct DirectiveParser {
    lines_consumed: usize,
}

impl DirectiveParser {
    /// The number of lines read so far.
    pub closed spec fn consumed(&self) -> nat {
        self.lines_consumed as nat
    }

    /// The number of lines read so far.
    pub fn lines_consumed(&self) -> (r: usize)
        ensures
            r == self.consumed(),
    {
        self.lines_consumed
    }

    /// The command that starts at the first of `lines`: lines that end in a
    /// backslash are joined to the next, without that backslash.
    pub fn parse(&mut self, lines: &[EvaluatedLine]) -> (r: Directive)
        requires
            old(self).consumed() + lines@.len() <= usize::MAX,
        ensures
            ({
                let (text, conts, read) = parse_from(lines@, 0, Seq::empty(), Seq::empty());
                &&& r.evaluated@ == text
                &&& r.continuations@ == conts
                &&& final(self).consumed() == old(self).consumed() + read
            }),
    {
        let mut command: Vec<char> = Vec::new();
        let mut continuations: Vec<usize> = Vec::new();
        let mut i: usize = 0;
        let ghost start = self.lines_consumed;
        while i < lines.len()
            invariant
                i <= lines.len(),
                start + lines@.len() <= usize::MAX,
                start == old(self).lines_consumed,
                self.lines_consumed == start + i,
                parse_from(lines@, i as int, command@, continuations@) == parse_from(
                    lines@,
                    0,
                    Seq::empty(),
                    Seq::empty(),
                ),
            decreases lines.len() - i,
        {
            let ghost before = command@;
            let text = chars_of(lines[i].text.as_str());
            let mut j: usize = 0;
            while j < text.len()
                invariant
                    j <= text.len(),
                    command@ == before + text@.take(j as int),
                decreases text.len() - j,
            {
                command.push(text[j]);
                j += 1;
            }
            assert(command@ =~= before + lines@[i as int].text@);
            self.lines_consumed = self.lines_consumed + 1;
            if lines[i].continuation {
                continuations.push(command.len());
                if command.len() > 0 {
                    command.pop();
                }
                i += 1;
            } else {
                assert(parse_from(lines@, i as int, before, continuations@) == (
                    command@,
                    continuations@,
                    i + 1,
                ));
                i += 1;
                return Directive {
                    evaluated: string_from_chars(command.as_slice(), 0, command.len()),
                    continuations,
                };
            }
        }
        Directive { evaluated: string_from_chars(command.as_slice(), 0, command.len()), continuations }
    }
}

} // verus!
