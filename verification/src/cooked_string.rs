//! String literals with their escape sequences processed.
use crate::compilation::{CompileError, CompileErrorKind};
use crate::text::{chars_of, push_char, string_from_chars};
use crate::token::{char_width, Token, TokenKind};
use vstd::prelude::*;
use vstd::string::*;

verus! {

/// A string literal: its text between the delimiters, and that text with
/// its escape sequences processed.
#[derive(PartialEq, Eq, Debug)]
pub struct CookedString {
    pub raw: String,
    pub cooked: String,
}

/// The character that the escape `\c` stands for, if it is an escape.
pub open spec fn spec_escape(c: char) -> Option<char> {
    if c == 'n' {
        Some('\n')
    } else if c == 'r' {
        Some('\r')
    } else if c == 't' {
        Some('\t')
    } else if c == '\\' {
        Some('\\')
    } else if c == '"' {
        Some('"')
    } else {
        None
    }
}

/// `raw[i..]` with escape sequences processed, `escape` telling whether a
/// backslash precedes it; or the first character after a backslash that is
/// no escape. A backslash at the very end stands for nothing.
pub open spec fn cook_from(raw: Seq<char>, i: int, escape: bool) -> Result<Seq<char>, char>
    decreases raw.len() - i,
{
    if i >= raw.len() {
        Ok(Seq::empty())
    } else if escape {
        match spec_escape(raw[i]) {
            Some(e) => match cook_from(raw, i + 1, false) {
                Ok(rest) => Ok(seq![e] + rest),
                Err(c) => Err(c),
            },
            None => Err(raw[i]),
        }
    } else if raw[i] == '\\' {
        cook_from(raw, i + 1, true)
    } else {
        match cook_from(raw, i + 1, false) {
            Ok(rest) => Ok(seq![raw[i]] + rest),
            Err(c) => Err(c),
        }
    }
}

/// `prefix` put in front of the text of `r`.
pub open spec fn prepend(prefix: Seq<char>, r: Result<Seq<char>, char>) -> Result<Seq<char>, char> {
    match r {
        Ok(rest) => Ok(prefix + rest),
        Err(c) => Err(c),
    }
}

proof fn lemma_prepend_twice(a: Seq<char>, b: Seq<char>, r: Result<Seq<char>, char>)
    ensures
        prepend(a, prepend(b, r)) == prepend(a + b, r),
{
    match r {
        Ok(x) => assert(a + (b + x) =~= (a + b) + x),
        Err(_) => {},
    }
}

/// Cooking does not look behind where it starts: `raw[i..]` cooks as the
/// part of `p + raw` after `p` does.
proof fn lemma_cook_from_shift(p: Seq<char>, raw: Seq<char>, i: int, escape: bool)
    requires
        0 <= i,
    ensures
        cook_from(p + raw, p.len() + i, escape) == cook_from(raw, i, escape),
    decreases raw.len() - i,
{
    if i < raw.len() {
        assert((p + raw)[p.len() + i] == raw[i]);
        lemma_cook_from_shift(p, raw, i + 1, false);
        lemma_cook_from_shift(p, raw, i + 1, true);
    }
}

/// What a double-quoted literal's text cooks to, character by character:
/// `\n` is a line feed, `\r` a carriage return, `\t` a tab, `\\` a
/// backslash and `\"` a double quote; a backslash before any other
/// character is an error naming that character; a character other than a
/// backslash stands for itself; and the empty text, or a lone backslash,
/// cooks to nothing.
pub proof fn lemma_cook_escapes(rest: Seq<char>, c: char)
    ensures
        cook_from(Seq::empty(), 0, false) == Ok::<Seq<char>, char>(Seq::empty()),
        cook_from(seq!['\\'], 0, false) == Ok::<Seq<char>, char>(Seq::empty()),
        cook_from(seq!['\\', 'n'] + rest, 0, false) == prepend(seq!['\u{a}'], cook_from(rest, 0, false)),
        cook_from(seq!['\\', 'r'] + rest, 0, false) == prepend(seq!['\u{d}'], cook_from(rest, 0, false)),
        cook_from(seq!['\\', 't'] + rest, 0, false) == prepend(seq!['\u{9}'], cook_from(rest, 0, false)),
        cook_from(seq!['\\', '\\'] + rest, 0, false) == prepend(seq!['\u{5c}'], cook_from(rest, 0, false)),
        cook_from(seq!['\\', '"'] + rest, 0, false) == prepend(seq!['\u{22}'], cook_from(rest, 0, false)),
        c != 'n' && c != 'r' && c != 't' && c != '\\' && c != '"' ==> cook_from(
            seq!['\\', c] + rest,
            0,
            false,
        ) == Err::<Seq<char>, char>(c),
        c != '\\' ==> cook_from(seq![c] + rest, 0, false) == prepend(seq![c], cook_from(rest, 0, false)),
{
    assert(cook_from(seq!['\\'], 0, false) == cook_from(seq!['\\'], 1, true));
    let pair = seq!['\\', c];
    lemma_cook_from_shift(pair, rest, 0, false);
    lemma_cook_from_shift(seq![c], rest, 0, false);
    let s = pair + rest;
    assert(s[0] == '\\');
    assert(s[1] == c);
    assert(cook_from(s, 0, false) == cook_from(s, 1, true));
    assert((seq![c] + rest)[0] == c);
    lemma_cook_escape_pair(rest, 'n');
    lemma_cook_escape_pair(rest, 'r');
    lemma_cook_escape_pair(rest, 't');
    lemma_cook_escape_pair(rest, '\\');
    lemma_cook_escape_pair(rest, '"');
}

proof fn lemma_cook_escape_pair(rest: Seq<char>, x: char)
    requires
        spec_escape(x) is Some,
    ensures
        cook_from(seq!['\\', x] + rest, 0, false) == prepend(seq![spec_escape(x)->0], cook_from(rest, 0, false)),
{
    let pair = seq!['\\', x];
    let s = pair + rest;
    lemma_cook_from_shift(pair, rest, 0, false);
    assert(s[0] == '\\');
    assert(s[1] == x);
    assert(cook_from(s, 0, false) == cook_from(s, 1, true));
    assert(cook_from(s, 1, true) == prepend(seq![spec_escape(x)->0], cook_from(s, 2, false)));
}

/// The escape of `c`.
fn escape(c: char) -> (r: Option<char>)
    ensures
        r == spec_escape(c),
{
    match c {
        'n' => Some('\n'),
        'r' => Some('\r'),
        't' => Some('\t'),
        '\\' => Some('\\'),
        '"' => Some('"'),
        _ => None,
    }
}

impl CookedString {
    /// Cook the string token `token`, whose text is `lexeme`. A single-quoted
    /// string is taken as it stands; a double-quoted one has its escape
    /// sequences processed, and an unknown escape is an error.
    pub fn new(token: &Token, lexeme: &str) -> (r: Result<CookedString, CompileError>)
        requires
            lexeme@.len() >= 2,
            char_width(lexeme@[0]) == 1,
            char_width(lexeme@[lexeme@.len() - 1]) == 1,
        ensures
            ({
                let raw = lexeme@.subrange(1, lexeme@.len() - 1);
                if token.kind == TokenKind::StringToken && lexeme@[0] == '\'' {
                    r matches Ok(s) && s.raw@ == raw && s.cooked@ == raw
                } else if token.kind == TokenKind::StringToken && lexeme@[0] == '"' {
                    match cook_from(raw, 0, false) {
                        Ok(cooked) => r matches Ok(s) && s.raw@ == raw && s.cooked@ == cooked,
                        Err(c) => r matches Err(e) && e.token == *token && e.kind
                            == (CompileErrorKind::InvalidEscapeSequence { character: c }),
                    }
                } else {
                    r matches Err(e) && e.token == *token && e.kind is Internal
                }
            }),
    {
        let chars = chars_of(lexeme);
        let n = chars.len();
        let raw = string_from_chars(chars.as_slice(), 1, n - 1);
        if token.kind == TokenKind::StringToken && chars[0] == '\'' {
            let cooked = string_from_chars(chars.as_slice(), 1, n - 1);
            Ok(CookedString { raw, cooked })
        } else if token.kind == TokenKind::StringToken && chars[0] == '"' {
            let ghost text = chars@.subrange(1, n - 1);
            let mut cooked = String::new();
            let mut escaping = false;
            let mut i: usize = 1;
            while i < n - 1
                invariant
                    chars@ == lexeme@,
                    token.kind == TokenKind::StringToken,
                    chars@[0] == '"',
                    n == chars.len(),
                    1 <= i <= n - 1,
                    text == chars@.subrange(1, n - 1),
                    cook_from(text, 0, false) == prepend(cooked@, cook_from(text, i - 1, escaping)),
                decreases n - 1 - i,
            {
                let c = chars[i];
                assert(text[i - 1] == c);
                if escaping {
                    match escape(c) {
                        Some(e) => {
                            proof {
                                assert(cook_from(text, i - 1, true) == prepend(
                                    seq![e],
                                    cook_from(text, i as int, false),
                                ));
                                lemma_prepend_twice(cooked@, seq![e], cook_from(text, i as int, false));
                            }
                            let ghost before = cooked@;
                            push_char(&mut cooked, e);
                            assert(cooked@ =~= before + seq![e]);
                        },
                        None => {
                            assert(cook_from(text, i - 1, true) == Err::<Seq<char>, char>(c));
                            assert(cook_from(text, 0, false) == Err::<Seq<char>, char>(c));
                            assert(text == lexeme@.subrange(1, lexeme@.len() - 1));
                            return Err(CompileError::new(
                                *token,
                                CompileErrorKind::InvalidEscapeSequence { character: c },
                            ));
                        },
                    }
                    escaping = false;
                } else if c == '\\' {
                    assert(cook_from(text, i - 1, false) == cook_from(text, i as int, true));
                    escaping = true;
                } else {
                    proof {
                        assert(cook_from(text, i - 1, false) == prepend(
                            seq![c],
                            cook_from(text, i as int, false),
                        ));
                        lemma_prepend_twice(cooked@, seq![c], cook_from(text, i as int, false));
                    }
                    let ghost before = cooked@;
                    push_char(&mut cooked, c);
                    assert(cooked@ =~= before + seq![c]);
                }
                i += 1;
            }
            assert(cooked@ + Seq::<char>::empty() =~= cooked@);
            Ok(CookedString { raw, cooked })
        } else {
            Err(CompileError::new(
                *token,
                CompileErrorKind::Internal {
                    message: String::from_str("cook_string() called on non-string token"),
                },
            ))
        }
    }
}

} // verus!
