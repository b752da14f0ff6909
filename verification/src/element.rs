//! A list element shown as a quoted string, with its special characters
//! escaped and the escapes set in their own style.
use crate::text::{chars_of, push_char, string_of};
use vstd::prelude::*;
use vstd::string::*;

verus! {

/// A string to be shown quoted.
pub struct Element<'a>(pub &'a str);

/// The escape sequence that stands for `c` in a quoted string, if `c`
/// needs one.
pub open spec fn spec_escape_sequence(c: char) -> Option<Seq<char>> {
    if c == '\\' {
        Some(seq!['\\', '\\'])
    } else if c == '"' {
        Some(seq!['\\', '"'])
    } else if c == '\n' {
        Some(seq!['\\', 'n'])
    } else if c == '\r' {
        Some(seq!['\\', 'r'])
    } else if c == '\t' {
        Some(seq!['\\', 't'])
    } else {
        None
    }
}

/// The shown text of `s[i..]`, `escaped` telling whether the escape style is
/// on; the string style is restored at the end.
pub open spec fn spec_body(s: Seq<char>, i: int, escaped: bool, string: Seq<char>, escape: Seq<char>) -> Seq<char>
    decreases s.len() - i,
{
    if i < 0 || i >= s.len() {
        if escaped {
            string
        } else {
            Seq::empty()
        }
    } else {
        match spec_escape_sequence(s[i]) {
            Some(sequence) => (if escaped {
                Seq::empty()
            } else {
                escape
            }) + sequence + spec_body(s, i + 1, true, string, escape),
            None => (if escaped {
                string
            } else {
                Seq::empty()
            }) + seq![s[i]] + spec_body(s, i + 1, false, string, escape),
        }
    }
}

fn escape_sequence(c: char) -> (r: Option<&'static str>)
    ensures
        match r {
            Some(t) => spec_escape_sequence(c) == Some(t@),
            None => spec_escape_sequence(c) is None,
        },
{
    proof {
        reveal_strlit("\\\\");
        reveal_strlit("\\\"");
        reveal_strlit("\\n");
        reveal_strlit("\\r");
        reveal_strlit("\\t");
    }
    let r = match c {
        '\\' => Some("\\\\"),
        '"' => Some("\\\""),
        '\n' => Some("\\n"),
        '\r' => Some("\\r"),
        '\t' => Some("\\t"),
        _ => None,
    };
    proof {
        if let Some(t) = r {
            assert(spec_escape_sequence(c).unwrap() =~= t@);
        }
    }
    r
}

impl<'a> Element<'a> {
    /// The element in double quotes, each special character replaced by its
    /// escape. `string` starts the string style, `escape` the escape style,
    /// and `suffix` ends the styling.
    pub fn color_display(&self, string: &str, escape: &str, suffix: &str) -> (r: String)
        ensures
            r@ == string@ + seq!['"'] + spec_body(self.0@, 0, false, string@, escape@) + seq!['"']
                + suffix@,
    {
        let chars = chars_of(self.0);
        let mut r = string_of(string);
        push_char(&mut r, '"');
        let ghost head = r@;
        let mut escaped = false;
        let mut i: usize = 0;
        while i < chars.len()
            invariant
                chars@ == self.0@,
                i <= chars.len(),
                head + spec_body(chars@, 0, false, string@, escape@) == r@ + spec_body(
                    chars@,
                    i as int,
                    escaped,
                    string@,
                    escape@,
                ),
            decreases chars.len() - i,
        {
            let c = chars[i];
            let ghost before = r@;
            let ghost was = escaped;
            match escape_sequence(c) {
                Some(sequence) => {
                    if !escaped {
                        r.append(escape);
                        escaped = true;
                    }
                    r.append(sequence);
                    proof {
                        assert(spec_escape_sequence(chars@[i as int]) == Some(sequence@));
                        assert(before + spec_body(chars@, i as int, was, string@, escape@)
                            =~= r@ + spec_body(chars@, i + 1, true, string@, escape@));
                    }
                },
                None => {
                    if escaped {
                        r.append(string);
                        escaped = false;
                    }
                    push_char(&mut r, c);
                },
            }
            i += 1;
        }
        if escaped {
            r.append(string);
        }
        push_char(&mut r, '"');
        r.append(suffix);
        r
    }
}

} // verus!
