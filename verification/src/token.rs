//! Tokens of the recipe-file language and the positions they start at.
use vstd::prelude::*;

verus! {

/// The kind of a token.
#[derive(Debug, PartialEq, Eq, Clone, Copy, Structural)]
pub enum TokenKind {
    AmpersandAmpersand,
    Asterisk,
    At,
    Backtick,
    BangEquals,
    BangTilde,
    BarBar,
    BraceL,
    BraceR,
    BracketL,
    BracketR,
    ByteOrderMark,
    Colon,
    ColonColon,
    ColonEquals,
    Comma,
    Comment,
    Dedent,
    Dollar,
    Eof,
    Eol,
    Equals,
    EqualsEquals,
    EqualsTilde,
    Identifier,
    Indent,
    InterpolationEnd,
    InterpolationStart,
    ParenL,
    ParenR,
    Plus,
    QuestionMark,
    Slash,
    StringToken,
    Text,
    Unspecified,
    Whitespace,
}

/// A position in source text: the byte offset, the zero-based line, and the
/// byte offset from the start of the line.
#[derive(Debug, PartialEq, Eq, Clone, Copy, Structural)]
pub struct Position {
    pub offset: usize,
    pub column: usize,
    pub line: usize,
}

/// A token: its kind and the span of source text it covers.
#[derive(Debug, PartialEq, Eq, Clone, Copy, Structural)]
pub struct Token {
    /// Byte offset of the first byte of the token
    pub offset: usize,
    /// Length of the token in bytes
    pub length: usize,
    /// Zero-based line of the start of the token
    pub line: usize,
    /// Byte offset of the start of the token within its line
    pub column: usize,
    /// The kind of the token
    pub kind: TokenKind,
}

/// The number of bytes of the UTF-8 encoding of `c`.
pub open spec fn char_width(c: char) -> nat {
    if (c as u32) <= 0x7f {
        1
    } else if (c as u32) <= 0x7ff {
        2
    } else if (c as u32) <= 0xffff {
        3
    } else {
        4
    }
}

/// The number of bytes of the UTF-8 encoding of `s[..i]`.
pub open spec fn prefix_bytes(s: Seq<char>, i: int) -> nat
    decreases i,
{
    if i <= 0 {
        0
    } else {
        prefix_bytes(s, i - 1) + char_width(s[i - 1])
    }
}

/// The number of line feeds in `s[..i]`.
pub open spec fn prefix_line(s: Seq<char>, i: int) -> nat
    decreases i,
{
    if i <= 0 {
        0
    } else {
        prefix_line(s, i - 1) + if s[i - 1] == '\n' {
            1nat
        } else {
            0nat
        }
    }
}

/// The number of bytes of `s[..i]` after its last line feed.
pub open spec fn prefix_column(s: Seq<char>, i: int) -> nat
    decreases i,
{
    if i <= 0 {
        0
    } else if s[i - 1] == '\n' {
        0
    } else {
        prefix_column(s, i - 1) + char_width(s[i - 1])
    }
}

/// `p` is the position of the character boundary `i` of `s`.
pub open spec fn is_position(s: Seq<char>, i: int, p: Position) -> bool {
    &&& p.offset == prefix_bytes(s, i)
    &&& p.line == prefix_line(s, i)
    &&& p.column == prefix_column(s, i)
}

/// `t` covers the characters `s[a..b]`.
pub open spec fn token_covers(s: Seq<char>, t: Token, a: int, b: int) -> bool {
    &&& 0 <= a <= b <= s.len()
    &&& t.offset == prefix_bytes(s, a)
    &&& t.length == prefix_bytes(s, b) - prefix_bytes(s, a)
    &&& t.line == prefix_line(s, a)
    &&& t.column == prefix_column(s, a)
}

/// The tokens, in order, cover `s[..upto]` without gap or overlap, the `k`th
/// one covering `s[bounds[k]..bounds[k + 1]]`.
pub open spec fn tokens_tile(s: Seq<char>, tokens: Seq<Token>, bounds: Seq<int>, upto: int) -> bool {
    &&& bounds.len() == tokens.len() + 1
    &&& bounds[0] == 0
    &&& bounds[tokens.len() as int] == upto
    &&& forall|k: int|
        0 <= k < tokens.len() ==> token_covers(s, #[trigger] tokens[k], bounds[k], bounds[k + 1])
}

/// Every character takes at least one byte, so byte offsets strictly grow
/// along the text.
pub proof fn lemma_prefix_bytes_strict(s: Seq<char>, i: int, j: int)
    requires
        0 <= i < j,
    ensures
        prefix_bytes(s, i) < prefix_bytes(s, j),
    decreases j - i,
{
    if i + 1 < j {
        lemma_prefix_bytes_strict(s, i, j - 1);
    }
}

/// Byte offsets, lines and columns only grow along the text, and lines and
/// columns are never larger than offsets.
pub proof fn lemma_prefix_monotone(s: Seq<char>, i: int, j: int)
    requires
        i <= j,
    ensures
        prefix_bytes(s, i) <= prefix_bytes(s, j),
        prefix_line(s, j) <= prefix_bytes(s, j),
        prefix_column(s, j) <= prefix_bytes(s, j),
        prefix_line(s, i) <= prefix_line(s, j),
        j >= 0 ==> j <= prefix_bytes(s, j),
    decreases j - i, j,
{
    if i < j {
        lemma_prefix_monotone(s, i, j - 1);
    } else if j > 0 {
        lemma_prefix_monotone(s, j - 1, j - 1);
    }
}

} // verus!
