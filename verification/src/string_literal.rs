//! String literals as they appear in recipe files.
use crate::string_kind::{spec_delimiter, StringDelimiter, StringKind};
use crate::text::{append_str, push_char, string_of};
use vstd::prelude::*;

verus! {

/// Where a piece of a format string stands among the interpolations.
#[derive(Clone, Copy, Debug, PartialEq, Eq, Structural)]
pub enum FormatStringPart {
    /// Between two interpolations.
    Continue,
    /// After the last interpolation.
    End,
    /// A format string without interpolations.
    Single,
    /// Before the first interpolation.
    Start,
}

/// A string literal: its source text and its value.
#[derive(Debug, PartialEq, Eq)]
pub struct StringLiteral {
    pub cooked: String,
    pub expand: bool,
    pub kind: StringKind,
    /// Its place in a format string, if it is part of one.
    pub part: Option<FormatStringPart>,
    pub raw: String,
}

/// How a string literal is written: `x` if it is expanded, `f` if it
/// begins a format string, then its raw text between what opens and closes
/// it, a delimiter or an interpolation brace pair.
pub open spec fn literal_text(l: StringLiteral) -> Seq<char> {
    (if l.expand {
        seq!['x']
    } else {
        Seq::empty()
    }) + (if l.part == Some(FormatStringPart::Start) || l.part == Some(FormatStringPart::Single) {
        seq!['f']
    } else {
        Seq::empty()
    }) + (if l.part == Some(FormatStringPart::Continue) || l.part == Some(FormatStringPart::End) {
        seq!['}', '}']
    } else {
        spec_delimiter(l.kind)
    }) + l.raw@ + (if l.part == Some(FormatStringPart::Start) || l.part == Some(
        FormatStringPart::Continue,
    ) {
        seq!['{', '{']
    } else {
        spec_delimiter(l.kind)
    })
}

impl StringLiteral {
    /// The single-quoted literal whose text is `raw`, taken as it stands.
    pub fn from_raw(raw: &str) -> (r: Self)
        ensures
            r.cooked@ == raw@,
            r.raw@ == raw@,
            !r.expand,
            r.part is None,
            r.kind == (StringKind { delimiter: StringDelimiter::QuoteSingle, indented: false }),
    {
        StringLiteral {
            cooked: string_of(raw),
            expand: false,
            kind: StringKind { delimiter: StringDelimiter::QuoteSingle, indented: false },
            part: None,
            raw: string_of(raw),
        }
    }

    /// How the literal is written, by the rule of `literal_text`.
    pub fn to_string(&self) -> (r: String)
        ensures
            r@ == literal_text(*self),
    {
        let mut r = String::new();
        if self.expand {
            push_char(&mut r, 'x');
        }
        let starts = self.part == Some(FormatStringPart::Start) || self.part == Some(
            FormatStringPart::Single,
        );
        if starts {
            push_char(&mut r, 'f');
        }
        let delimiter = self.kind.delimiter_chars();
        let after_interpolation = self.part == Some(FormatStringPart::Continue) || self.part
            == Some(FormatStringPart::End);
        let ghost before_open = r@;
        if after_interpolation {
            push_char(&mut r, '}');
            push_char(&mut r, '}');
            assert(r@ =~= before_open + seq!['}', '}']);
        } else {
            push_chars(&mut r, &delimiter);
            assert(r@ =~= before_open + spec_delimiter(self.kind));
        }
        append_str(&mut r, self.raw.as_str());
        let before_interpolation = self.part == Some(FormatStringPart::Start) || self.part == Some(
            FormatStringPart::Continue,
        );
        let ghost before_close = r@;
        if before_interpolation {
            push_char(&mut r, '{');
            push_char(&mut r, '{');
            assert(r@ =~= before_close + seq!['{', '{']);
        } else {
            push_chars(&mut r, &delimiter);
        }
        assert(r@ =~= literal_text(*self));
        r
    }
}

/// Appends the characters `chars` to `s`.
fn push_chars(s: &mut String, chars: &Vec<char>)
    ensures
        final(s)@ == old(s)@ + chars@,
{
    let mut k: usize = 0;
    while k < chars.len()
        invariant
            k <= chars.len(),
            s@ =~= old(s)@ + chars@.take(k as int),
        decreases chars.len() - k,
    {
        push_char(s, chars[k]);
        k += 1;
    }
    assert(chars@.take(chars.len() as int) =~= chars@);
}

} // verus!
