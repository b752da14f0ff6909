//! Shebang lines: `#!` followed by an interpreter and an optional argument.
use crate::text::{
    chars_of, find_char, first_index, last_index, rfind_char, spec_trim, string_from_chars,
    trim_bounds, trim_end_index, trim_start_index,
};
use vstd::prelude::*;

verus! {

/// The interpreter named by a shebang line, and its argument.
#[derive(Debug, PartialEq, Eq)]
pub struct Shebang {
    pub interpreter: String,
    pub argument: Option<String>,
}

/// The first line of `s`, as `str::lines` gives it: up to the first line
/// feed, without a carriage return that directly precedes that line feed.
pub open spec fn spec_first_line(s: Seq<char>) -> Seq<char> {
    match first_index(s, '\n') {
        Some(k) => if k > 0 && s[k - 1] == '\r' {
            s.subrange(0, k - 1)
        } else {
            s.subrange(0, k)
        },
        None => s,
    }
}

/// The position of the first space or tab in `s`, if any.
pub open spec fn first_blank(s: Seq<char>) -> Option<int> {
    if exists|i: int| 0 <= i < s.len() && (s[i] == ' ' || s[i] == '\t') {
        Some(
            choose|i: int|
                0 <= i < s.len() && (s[i] == ' ' || s[i] == '\t') && forall|j: int|
                    0 <= j < i ==> !(s[j] == ' ' || s[j] == '\t'),
        )
    } else {
        None
    }
}

/// The interpreter and argument that the shebang line `line` names, if it
/// names one: the first line after `#!`, trimmed, split at its first space
/// or tab.
pub open spec fn spec_shebang(line: Seq<char>) -> Option<(Seq<char>, Option<Seq<char>>)> {
    if !(line.len() >= 2 && line[0] == '#' && line[1] == '!') {
        None
    } else {
        let text = spec_trim(spec_first_line(line.subrange(2, line.len() as int)));
        match first_blank(text) {
            Some(i) => if i == 0 {
                None
            } else {
                Some((text.subrange(0, i), Some(text.subrange(i + 1, text.len() as int))))
            },
            None => if text.len() == 0 {
                None
            } else {
                Some((text, None))
            },
        }
    }
}

/// The file name of an interpreter path: what follows its last `/` or `\`.
pub open spec fn spec_interpreter_filename(interpreter: Seq<char>) -> Seq<char> {
    let slash = match last_index(interpreter, '/') {
        Some(i) => i,
        None => -1,
    };
    let backslash = match last_index(interpreter, '\\') {
        Some(i) => i,
        None => -1,
    };
    let cut = if slash > backslash {
        slash
    } else {
        backslash
    };
    interpreter.subrange(cut + 1, interpreter.len() as int)
}

impl Shebang {
    /// Read the shebang line `line`.
    pub fn new(line: &str) -> (r: Option<Shebang>)
        ensures
            match r {
                Some(s) => spec_shebang(line@) == Some((s.interpreter@, crate::text::opt_view(s.argument))),
                None => spec_shebang(line@) is None,
            },
    {
        let chars = chars_of(line);
        if !(chars.len() >= 2 && chars[0] == '#' && chars[1] == '!') {
            return None;
        }
        let (_, after) = chars.as_slice().split_at(2);
        assert(after@ == line@.subrange(2, line@.len() as int));
        // The first line
        let end = match find_char(after, '\n') {
            Some(k) => if k > 0 && after[k - 1] == '\r' {
                k - 1
            } else {
                k
            },
            None => after.len(),
        };
        let ghost first = spec_first_line(after@);
        assert(first =~= after@.subrange(0, end as int));
        let (first_line, _) = after.split_at(end);
        assert(first_line@ =~= first);
        let (from, to) = trim_bounds(first_line, 0, first_line.len());
        let ghost text = spec_trim(first);
        assert(text =~= first_line@.subrange(from as int, to as int));
        let mut i = from;
        while i < to && !(first_line[i] == ' ' || first_line[i] == '\t')
            invariant
                from <= i <= to <= first_line.len(),
                forall|j: int| from <= j < i ==> !(first_line@[j] == ' ' || first_line@[j] == '\t'),
            decreases to - i,
        {
            i += 1;
        }
        proof {
            if i < to {
                assert(text[i - from] == first_line@[i as int]);
                let k = choose|k: int|
                    0 <= k < text.len() && (text[k] == ' ' || text[k] == '\t') && forall|j: int|
                        0 <= j < k ==> !(text[j] == ' ' || text[j] == '\t');
                if k < i - from {
                    assert(text[k] == first_line@[from + k]);
                }
                if k > i - from {
                    assert(!(text[i - from] == ' ' || text[i - from] == '\t'));
                }
                assert(first_blank(text) == Some(i - from));
            } else {
                assert forall|j: int| 0 <= j < text.len() implies !(text[j] == ' ' || text[j] == '\t') by {
                    assert(text[j] == first_line@[from + j]);
                }
                assert(first_blank(text) is None);
            }
        }
        if i == from {
            return None;
        }
        let interpreter = string_from_chars(first_line, from, i);
        let argument = if i < to {
            Some(string_from_chars(first_line, i + 1, to))
        } else {
            None
        };
        proof {
            assert(interpreter@ =~= text.subrange(0, i - from));
            if i < to {
                assert(argument.unwrap()@ =~= text.subrange(i - from + 1, text.len() as int));
            }
        }
        Some(Shebang { interpreter, argument })
    }

    /// The file name of the interpreter: what follows its last `/` or `\`.
    pub fn interpreter_filename(&self) -> (r: String)
        ensures
            r@ == spec_interpreter_filename(self.interpreter@),
    {
        let chars = chars_of(self.interpreter.as_str());
        let slash = rfind_char(chars.as_slice(), '/');
        let backslash = rfind_char(chars.as_slice(), '\\');
        proof {
            if let Some(a) = slash {
                assert(a < chars.len());
            }
            if let Some(b) = backslash {
                assert(b < chars.len());
            }
        }
        let cut = match (slash, backslash) {
            (Some(a), Some(b)) => if a > b {
                a + 1
            } else {
                b + 1
            },
            (Some(a), None) => a + 1,
            (None, Some(b)) => b + 1,
            (None, None) => 0,
        };
        string_from_chars(chars.as_slice(), cut, chars.len())
    }

    /// Whether the shebang line is kept in the script: not on Windows, and
    /// not for `cmd`.
    pub fn include_shebang_line(&self, windows: bool) -> (r: bool)
        ensures
            r == !(windows || spec_interpreter_filename(self.interpreter@) == "cmd"@
                || spec_interpreter_filename(self.interpreter@) == "cmd.exe"@),
    {
        let filename = self.interpreter_filename();
        !(windows || crate::text::str_equal(filename.as_str(), "cmd") || crate::text::str_equal(
            filename.as_str(),
            "cmd.exe",
        ))
    }
}

} // verus!
