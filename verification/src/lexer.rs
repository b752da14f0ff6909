//! The lexer of the recipe-file language.
//!
//! The lexer proceeds character by character. Every token it produces
//! covers the source text that follows the previous one, so that the
//! lexemes of the tokens, in order, make up the whole text.
use crate::compilation::{CompileError, CompileErrorKind};
use crate::delimiter::Delimiter;
use crate::string_kind::{spec_delimiter, spec_kind_at, StringDelimiter, StringKind};
use crate::text::{append_str, chars_of, occurs_at, occurs_at_exec, push_char, string_from_chars};
use crate::token::{
    char_width, is_position, lemma_prefix_bytes_strict, lemma_prefix_monotone, prefix_bytes, prefix_column, prefix_line,
    token_covers, tokens_tile, Position, Token, TokenKind,
};
use vstd::prelude::*;

verus! {

/// `c` can be the first character of an identifier.
pub open spec fn spec_is_identifier_start(c: char) -> bool {
    ('a' <= c && c <= 'z') || ('A' <= c && c <= 'Z') || c == '_'
}

/// `c` can continue an identifier.
pub open spec fn spec_is_identifier_continue(c: char) -> bool {
    spec_is_identifier_start(c) || ('0' <= c && c <= '9') || c == '-'
}

/// `text` could be an identifier.
pub open spec fn spec_is_identifier(text: Seq<char>) -> bool {
    &&& text.len() > 0
    &&& spec_is_identifier_start(text[0])
    &&& forall|i: int| 1 <= i < text.len() ==> spec_is_identifier_continue(#[trigger] text[i])
}

/// The message of the internal error when the lexer presumed `c` wrongly.
pub open spec fn presumed_message(c: char) -> Seq<char> {
    "Lexer presumed character `"@ + seq![c] + "`"@
}

/// Every character of `t` is a space or a tab.
pub open spec fn all_blank(t: Seq<char>) -> bool {
    forall|j: int| 0 <= j < t.len() ==> is_blank(#[trigger] t[j])
}

/// `t` is a line break: a line feed, or a carriage return and a line feed.
pub open spec fn is_line_break(t: Seq<char>) -> bool {
    t == seq!['\n'] || t == seq!['\r', '\n']
}

/// The text of a whitespace token: spaces and tabs, a line break (inside
/// delimiters), or a backslash-escaped line break followed by spaces and
/// tabs.
pub open spec fn whitespace_fits(t: Seq<char>) -> bool {
    &&& t.len() > 0
    &&& {
        ||| all_blank(t)
        ||| is_line_break(t)
        ||| (t[0] == '\\' && exists|k: int|
            1 <= k <= t.len() && #[trigger] is_line_break(t.subrange(1, k)) && all_blank(
                t.subrange(k, t.len() as int),
            ))
    }
}

/// The kind of token that a string of kind `k` becomes.
pub open spec fn string_token_kind(k: StringKind) -> TokenKind {
    match k.delimiter {
        StringDelimiter::Backtick => TokenKind::Backtick,
        _ => TokenKind::StringToken,
    }
}

/// The text of a string token of kind `kind`: it opens and closes with the
/// delimiter of a kind of string that gives tokens of kind `kind`.
pub open spec fn string_fits(kind: TokenKind, t: Seq<char>) -> bool {
    exists|k: StringKind|
        #[trigger] string_token_kind(k) == kind && t.len() >= 2 * spec_delimiter(k).len()
            && spec_delimiter(k).is_prefix_of(t) && spec_delimiter(k).is_suffix_of(t)
}

/// The text `t` can be that of a token of kind `kind`. The end-of-file
/// token is empty, or holds a backslash that ends the text.
pub open spec fn lexeme_fits(kind: TokenKind, t: Seq<char>) -> bool {
    match kind {
        TokenKind::AmpersandAmpersand => t == seq!['&', '&'],
        TokenKind::Asterisk => t == seq!['*'],
        TokenKind::At => t == seq!['@'],
        TokenKind::Backtick => string_fits(kind, t),
        TokenKind::BangEquals => t == seq!['!', '='],
        TokenKind::BangTilde => t == seq!['!', '~'],
        TokenKind::BarBar => t == seq!['|', '|'],
        TokenKind::BraceL => t == seq!['{'],
        TokenKind::BraceR => t == seq!['}'],
        TokenKind::BracketL => t == seq!['['],
        TokenKind::BracketR => t == seq![']'],
        TokenKind::ByteOrderMark => t == seq!['\u{feff}'],
        TokenKind::Colon => t == seq![':'],
        TokenKind::ColonColon => t == seq![':', ':'],
        TokenKind::ColonEquals => t == seq![':', '='],
        TokenKind::Comma => t == seq![','],
        TokenKind::Comment => t.len() > 0 && t[0] == '#' && !t.contains('\n'),
        TokenKind::Dedent => t.len() == 0,
        TokenKind::Dollar => t == seq!['$'],
        TokenKind::Eof => t.len() == 0 || t == seq!['\\'],
        TokenKind::Eol => is_line_break(t),
        TokenKind::Equals => t == seq!['='],
        TokenKind::EqualsEquals => t == seq!['=', '='],
        TokenKind::EqualsTilde => t == seq!['=', '~'],
        TokenKind::Identifier => spec_is_identifier(t),
        TokenKind::Indent => t.len() > 0 && all_blank(t),
        TokenKind::InterpolationEnd => t == seq!['}', '}'],
        TokenKind::InterpolationStart => t == seq!['{', '{'],
        TokenKind::ParenL => t == seq!['('],
        TokenKind::ParenR => t == seq![')'],
        TokenKind::Plus => t == seq!['+'],
        TokenKind::QuestionMark => t == seq!['?'],
        TokenKind::Slash => t == seq!['/'],
        TokenKind::StringToken => string_fits(kind, t),
        TokenKind::Text => t.len() > 0 && !t.contains('\n'),
        TokenKind::Unspecified => true,
        TokenKind::Whitespace => whitespace_fits(t),
    }
}

/// Each of `tokens` has text that fits its kind, the `k`th covering
/// `s[bounds[k]..bounds[k + 1]]`.
pub open spec fn tokens_fit(s: Seq<char>, tokens: Seq<Token>, bounds: Seq<int>) -> bool {
    forall|k: int|
        0 <= k < tokens.len() ==> lexeme_fits(
            (#[trigger] tokens[k]).kind,
            s.subrange(bounds[k], bounds[k + 1]),
        )
}

/// How the token kind `kind` changes the indentation depth.
pub open spec fn depth_change(kind: TokenKind) -> int {
    match kind {
        TokenKind::Indent => 1,
        TokenKind::Dedent => -1,
        _ => 0,
    }
}

/// The indentation depth after `tokens`: the number of indents less the
/// number of dedents.
pub open spec fn indent_depth(tokens: Seq<Token>) -> int
    decreases tokens.len(),
{
    if tokens.len() == 0 {
        0
    } else {
        indent_depth(tokens.drop_last()) + depth_change(tokens.last().kind)
    }
}

/// No prefix of `tokens` holds more dedents than indents.
pub open spec fn well_nested(tokens: Seq<Token>) -> bool {
    forall|n: int| 0 <= n <= tokens.len() ==> #[trigger] indent_depth(tokens.take(n)) >= 0
}

/// None of `tokens` is of unspecified kind.
pub open spec fn no_unspecified(tokens: Seq<Token>) -> bool {
    forall|k: int| 0 <= k < tokens.len() ==> (#[trigger] tokens[k]).kind != TokenKind::Unspecified
}

/// `c` is a space or a tab.
pub open spec fn is_blank(c: char) -> bool {
    c == ' ' || c == '\t'
}

/// The number of bytes of the UTF-8 encoding of `c`.
pub fn len_utf8(c: char) -> (r: usize)
    ensures
        r == char_width(c),
{
    let u = c as u32;
    if u <= 0x7f {
        1
    } else if u <= 0x7ff {
        2
    } else if u <= 0xffff {
        3
    } else {
        4
    }
}

/// A copy of `s[a..b]`.
fn copy_range(s: &Vec<char>, a: usize, b: usize) -> (r: Vec<char>)
    requires
        a <= b <= s.len(),
    ensures
        r@ == s@.subrange(a as int, b as int),
{
    let mut r: Vec<char> = Vec::new();
    let mut i = a;
    while i < b
        invariant
            a <= i <= b <= s.len(),
            r@ =~= s@.subrange(a as int, i as int),
        decreases b - i,
    {
        r.push(s[i]);
        i += 1;
    }
    r
}

/// Whether `s[a..b]` holds `c`.
fn range_contains(s: &Vec<char>, a: usize, b: usize, c: char) -> (r: bool)
    requires
        a <= b <= s.len(),
    ensures
        r == s@.subrange(a as int, b as int).contains(c),
{
    let mut i = a;
    while i < b
        invariant
            a <= i <= b <= s.len(),
            forall|j: int| a <= j < i ==> s@[j] != c,
        decreases b - i,
    {
        if s[i] == c {
            assert(s@.subrange(a as int, b as int)[i - a] == c);
            return true;
        }
        i += 1;
    }
    false
}

/// Whether `s[a..b]` is the same text as `t`.
fn range_equals(s: &Vec<char>, a: usize, b: usize, t: &Vec<char>) -> (r: bool)
    requires
        a <= b <= s.len(),
    ensures
        r == (s@.subrange(a as int, b as int) == t@),
{
    if b - a != t.len() {
        return false;
    }
    occurs_at_exec(s.as_slice(), t.as_slice(), a)
}

/// Whether `s[a..b]` begins with `t`.
fn range_starts_with(s: &Vec<char>, a: usize, b: usize, t: &Vec<char>) -> (r: bool)
    requires
        a <= b <= s.len(),
    ensures
        r == t@.is_prefix_of(s@.subrange(a as int, b as int)),
{
    if t.len() > b - a {
        return false;
    }
    let r = occurs_at_exec(s.as_slice(), t.as_slice(), a);
    assert(s@.subrange(a as int, b as int).subrange(0, t@.len() as int) =~= s@.subrange(
        a as int,
        a + t@.len(),
    ));
    r
}

/// The top of the stack `open` is an opening of `close`.
pub open spec fn closes_top(open: Seq<(Delimiter, usize)>, close: Delimiter) -> bool {
    open.len() > 0 && open.last().0 == close
}

/// A backslash at `i` of `s` escapes a line break or ends the text.
pub open spec fn escape_ok(s: Seq<char>, i: int) -> bool {
    let j = i + 1;
    ||| j >= s.len()
    ||| s[j] == '\n'
    ||| (s[j] == '\r' && j + 1 < s.len() && s[j + 1] == '\n')
}

/// A line break starts at `i` of `s`: a line feed, or a carriage return
/// followed by one.
pub open spec fn eol_ok(s: Seq<char>, i: int) -> bool {
    s[i] == '\n' || (i + 1 < s.len() && s[i + 1] == '\n')
}

/// From `j` on, `s` closes a string delimited by `d`, where backslashes
/// escape the next character when `escapes` holds and `escape` says whether
/// the character at `j` is escaped.
pub open spec fn string_closes(s: Seq<char>, j: int, d: Seq<char>, escapes: bool, escape: bool) -> bool
    decreases s.len() - j,
{
    if j < 0 || j >= s.len() {
        false
    } else if escapes && s[j] == '\\' && !escape {
        string_closes(s, j + 1, d, escapes, true)
    } else if occurs_at(s, d, j) && !escape {
        true
    } else {
        string_closes(s, j + 1, d, escapes, false)
    }
}

/// A string starts at `i` of `s` and is closed.
/// Where the delimiter `d` that closes a string stands, searching from
/// `j` of `s` as `string_closes` does.
pub open spec fn string_close_at(s: Seq<char>, j: int, d: Seq<char>, escapes: bool, escape: bool) -> int
    decreases s.len() - j,
{
    if j < 0 || j >= s.len() {
        j
    } else if escapes && s[j] == '\\' && !escape {
        string_close_at(s, j + 1, d, escapes, true)
    } else if occurs_at(s, d, j) && !escape {
        j
    } else {
        string_close_at(s, j + 1, d, escapes, false)
    }
}

/// Where the string that starts at `i` of `s` ends: after its closing
/// delimiter.
pub open spec fn string_end(s: Seq<char>, i: int) -> int {
    match spec_kind_at(s, i) {
        Some(k) => string_close_at(
            s,
            i + spec_delimiter(k).len(),
            spec_delimiter(k),
            k.delimiter == StringDelimiter::QuoteDouble,
            false,
        ) + spec_delimiter(k).len(),
        None => i + 1,
    }
}

/// A closed string's closing delimiter stands at or after `j`, within `s`.
pub proof fn lemma_string_close_at(s: Seq<char>, j: int, d: Seq<char>, escapes: bool, escape: bool)
    requires
        0 <= j,
        string_closes(s, j, d, escapes, escape),
    ensures
        j <= string_close_at(s, j, d, escapes, escape),
        occurs_at(s, d, string_close_at(s, j, d, escapes, escape)),
    decreases s.len() - j,
{
    if j < s.len() {
        if escapes && s[j] == '\\' && !escape {
            lemma_string_close_at(s, j + 1, d, escapes, true);
        } else if occurs_at(s, d, j) && !escape {
        } else {
            lemma_string_close_at(s, j + 1, d, escapes, false);
        }
    }
}

pub open spec fn string_ok(s: Seq<char>, i: int) -> bool {
    match spec_kind_at(s, i) {
        Some(k) => string_closes(
            s,
            i + spec_delimiter(k).len(),
            spec_delimiter(k),
            k.delimiter == StringDelimiter::QuoteDouble,
            false,
        ),
        None => false,
    }
}

/// `c` begins a token of its own that cannot fail: a blank, a comment, an
/// opening delimiter, a single-character token, a colon, an equals sign or
/// an identifier.
pub open spec fn always_starts_token(c: char) -> bool {
    ||| is_blank(c)
    ||| c == '#' || c == '$' || c == '(' || c == '*' || c == '+' || c == ',' || c == '/'
    ||| c == ':' || c == '=' || c == '?' || c == '@' || c == '[' || c == '\u{feff}' || c == '{'
    ||| spec_is_identifier_start(c)
}

/// A token outside recipe bodies can be lexed at `i` of `s`, where `open`
/// are the open delimiters: `!` begins `!=` or `!~` and no `!include`, `&&`
/// and `||` are doubled, a closing delimiter closes the innermost open one,
/// a backslash escapes a line break or ends the text, a carriage return is
/// followed by a line feed, a string is closed, and no other character
/// begins no token.
pub open spec fn normal_ok(s: Seq<char>, i: int, open: Seq<(Delimiter, usize)>) -> bool {
    let c = s[i];
    if c == '!' {
        !occurs_at(s, "!include"@, i) && i + 1 < s.len() && (s[i + 1] == '=' || s[i + 1] == '~')
    } else if c == '&' || c == '|' {
        i + 1 < s.len() && s[i + 1] == c
    } else if c == ')' {
        closes_top(open, Delimiter::Paren)
    } else if c == ']' {
        closes_top(open, Delimiter::Bracket)
    } else if c == '}' {
        closes_top(open, Delimiter::Brace)
    } else if c == '\\' {
        escape_ok(s, i)
    } else if c == '\n' || c == '\r' {
        eol_ok(s, i)
    } else if c == '`' || c == '"' || c == '\'' {
        string_ok(s, i)
    } else {
        always_starts_token(c)
    }
}

/// The end of the run of spaces and tabs that starts at `i` of `s`.
pub open spec fn blanks_end(s: Seq<char>, i: int) -> int
    decreases s.len() - i,
{
    if 0 <= i < s.len() && is_blank(s[i]) {
        blanks_end(s, i + 1)
    } else {
        i
    }
}

/// The line whose leading blanks start at `i` of `s` holds nothing else.
pub open spec fn blank_line_at(s: Seq<char>, i: int) -> bool {
    let e = blanks_end(s, i);
    e >= s.len() || s[e] == '\n' || (s[e] == '\r' && e + 1 < s.len() && s[e + 1] == '\n')
}

/// The indentation levels `indentation`, as texts.
pub open spec fn level_views(indentation: Seq<Vec<char>>) -> Seq<Seq<char>> {
    indentation.map_values(|level: Vec<char>| level@)
}

proof fn lemma_level_views(indentation: Seq<Vec<char>>)
    ensures
        level_views(indentation).len() == indentation.len(),
        forall|k: int|
            0 <= k < indentation.len() ==> #[trigger] level_views(indentation)[k] == indentation[k]@,
        indentation.len() > 0 ==> level_views(indentation).last() == indentation.last()@
            && level_views(indentation.drop_last()) == level_views(indentation).drop_last(),
        forall|ws: Seq<char>|
            #[trigger] indentation_has(level_views(indentation), ws) <==> exists|k: int|
                0 <= k < indentation.len() && #[trigger] indentation[k]@ == ws,
{
    if indentation.len() > 0 {
        assert(level_views(indentation.drop_last()) =~= level_views(indentation).drop_last());
    }
    assert forall|ws: Seq<char>|
        #[trigger] indentation_has(level_views(indentation), ws) <==> exists|k: int|
            0 <= k < indentation.len() && #[trigger] indentation[k]@ == ws by {
        if indentation_has(level_views(indentation), ws) {
            let k = choose|k: int|
                0 <= k < level_views(indentation).len() && #[trigger] level_views(indentation)[k] == ws;
            assert(indentation[k]@ == ws);
        }
        if exists|k: int| 0 <= k < indentation.len() && #[trigger] indentation[k]@ == ws {
            let k = choose|k: int| 0 <= k < indentation.len() && #[trigger] indentation[k]@ == ws;
            assert(level_views(indentation)[k] == ws);
        }
    }
}

/// One of the levels of `indentation` is `ws`.
pub open spec fn indentation_has(indentation: Seq<Seq<char>>, ws: Seq<char>) -> bool {
    exists|k: int| 0 <= k < indentation.len() && #[trigger] indentation[k] == ws
}

/// The leading blanks of the line at `i` of `s` are consistent with the
/// indentation levels `indentation`: the line is blank, or its blanks are
/// one of the levels, or (in a recipe body) begin with the innermost level,
/// or they begin with the innermost level without mixing spaces and tabs
/// outside a recipe body.
pub open spec fn line_start_ok(s: Seq<char>, i: int, indentation: Seq<Seq<char>>, recipe_body: bool) -> bool {
    let ws = s.subrange(i, blanks_end(s, i));
    let top = indentation.last();
    ||| blank_line_at(s, i)
    ||| indentation_has(indentation, ws)
    ||| (recipe_body && top.is_prefix_of(ws))
    ||| (!(!recipe_body && ws.contains(' ') && ws.contains('\t')) && top.is_prefix_of(ws))
}

/// Where the lexing of the start of the line at `i` of `s` leaves off: after
/// its leading blanks, or, in a recipe body whose innermost level the
/// blanks extend, after that level.
pub open spec fn line_start_end(s: Seq<char>, i: int, indentation: Seq<Seq<char>>, recipe_body: bool) -> int {
    let ws = s.subrange(i, blanks_end(s, i));
    let top = indentation.last();
    if !blank_line_at(s, i) && !indentation_has(indentation, ws) && recipe_body && top.is_prefix_of(ws) {
        i + top.len()
    } else {
        blanks_end(s, i)
    }
}

proof fn lemma_kinds_push(t: Seq<Token>, x: Token)
    ensures
        token_kinds(t.push(x)) == token_kinds(t).push(x.kind),
{
    assert(token_kinds(t.push(x)) =~= token_kinds(t).push(x.kind));
}

/// How many levels of `indentation` lie above the innermost one that is
/// `ws`.
pub open spec fn levels_above(indentation: Seq<Seq<char>>, ws: Seq<char>) -> nat
    decreases indentation.len(),
{
    if indentation.len() == 0 || indentation.last() == ws {
        0
    } else {
        1 + levels_above(indentation.drop_last(), ws)
    }
}

/// The kinds of the tokens that the start of the line at `i` of `s` gives
/// when it fits the indentation levels `indentation`: its blanks as
/// whitespace on a blank line; the innermost level as whitespace where the
/// line continues it; a dedent for each level closed, then the blanks, where
/// the line returns to an outer level; else a new level, which is mere
/// whitespace inside open delimiters.
pub open spec fn line_start_kinds(
    s: Seq<char>,
    i: int,
    indentation: Seq<Seq<char>>,
    recipe_body: bool,
    delimiters_open: bool,
) -> Seq<TokenKind> {
    let ws = s.subrange(i, blanks_end(s, i));
    let top = indentation.last();
    let blanks = if ws.len() > 0 {
        seq![TokenKind::Whitespace]
    } else {
        Seq::empty()
    };
    let level = if top.len() > 0 {
        seq![TokenKind::Whitespace]
    } else {
        Seq::empty()
    };
    if blank_line_at(s, i) {
        blanks
    } else if ws == top {
        level
    } else if indentation_has(indentation, ws) {
        Seq::new(levels_above(indentation, ws), |_k: int| TokenKind::Dedent) + blanks
    } else if recipe_body && top.is_prefix_of(ws) {
        level
    } else if delimiters_open {
        seq![TokenKind::Whitespace]
    } else {
        seq![TokenKind::Indent]
    }
}

/// The indentation levels after the start of the line at `i` of `s`, when
/// it fits the levels `indentation`: the levels closed by a return to an
/// outer level are gone, and a deeper level outside a recipe body and
/// outside delimiters is added.
pub open spec fn line_start_levels(
    s: Seq<char>,
    i: int,
    indentation: Seq<Seq<char>>,
    recipe_body: bool,
    delimiters_open: bool,
) -> Seq<Seq<char>> {
    let ws = s.subrange(i, blanks_end(s, i));
    let top = indentation.last();
    if blank_line_at(s, i) || ws == top {
        indentation
    } else if indentation_has(indentation, ws) {
        indentation.take(indentation.len() - levels_above(indentation, ws))
    } else if (recipe_body && top.is_prefix_of(ws)) || delimiters_open {
        indentation
    } else {
        indentation.push(ws)
    }
}

/// Whether a recipe body is open, and whether one is pending, after the
/// start of the line at `i` of `s`: a return to an outer level ends both;
/// a new level outside delimiters opens the pending body.
pub open spec fn line_start_flags(
    s: Seq<char>,
    i: int,
    indentation: Seq<Seq<char>>,
    recipe_body: bool,
    pending: bool,
    delimiters_open: bool,
) -> (bool, bool) {
    let ws = s.subrange(i, blanks_end(s, i));
    let top = indentation.last();
    if blank_line_at(s, i) || ws == top {
        (recipe_body, pending)
    } else if indentation_has(indentation, ws) {
        (false, false)
    } else if (recipe_body && top.is_prefix_of(ws)) || delimiters_open {
        (recipe_body, pending)
    } else {
        (recipe_body || pending, pending)
    }
}

/// `e` is the error for the leading blanks of the line at `i` of `s` that
/// do not fit the indentation levels `indentation`: mixed spaces and tabs
/// outside a recipe body, else blanks inconsistent with the innermost
/// level; it covers the blanks.
pub open spec fn line_start_error(
    s: Seq<char>,
    i: int,
    indentation: Seq<Seq<char>>,
    recipe_body: bool,
    e: CompileError,
) -> bool {
    let ws = s.subrange(i, blanks_end(s, i));
    let top = indentation.last();
    &&& e.token == (Token {
        kind: TokenKind::Unspecified,
        offset: prefix_bytes(s, i) as usize,
        line: prefix_line(s, i) as usize,
        column: prefix_column(s, i) as usize,
        length: (prefix_bytes(s, blanks_end(s, i)) - prefix_bytes(s, i)) as usize,
    })
    &&& if !recipe_body && ws.contains(' ') && ws.contains('\t') {
        e.kind matches CompileErrorKind::MixedLeadingWhitespace { whitespace } && whitespace@ == ws
    } else {
        e.kind matches CompileErrorKind::InconsistentLeadingWhitespace { expected, found }
            && expected@ == top && found@ == ws
    }
}

proof fn lemma_blanks_end(s: Seq<char>, i: int, k: int)
    requires
        0 <= i <= k <= s.len(),
        forall|j: int| i <= j < k ==> is_blank(#[trigger] s[j]),
    ensures
        blanks_end(s, i) == blanks_end(s, k),
    decreases k - i,
{
    if i < k {
        lemma_blanks_end(s, i + 1, k);
    }
}

/// `c` may stand in plain text: a letter or underscore, a space or tab, a
/// line feed, or one of `$ * + , / ? @`.
pub open spec fn plain_char(c: char) -> bool {
    ||| spec_is_identifier_start(c)
    ||| is_blank(c)
    ||| c == '\n'
    ||| c == '$' || c == '*' || c == '+' || c == ',' || c == '/' || c == '?' || c == '@'
}

/// `s` is plain text: words of letters and underscores, spaces and tabs,
/// line feeds and the punctuation of `plain_char`, with no line beginning
/// with a space or tab.
pub open spec fn plain_text(s: Seq<char>) -> bool {
    forall|j: int|
        0 <= j < s.len() ==> {
            &&& plain_char(#[trigger] s[j])
            &&& (is_blank(s[j]) ==> j > 0 && s[j - 1] != '\n')
        }
}

proof fn lemma_column_zero(s: Seq<char>, i: int)
    requires
        0 < i <= s.len(),
        prefix_column(s, i) == 0,
    ensures
        s[i - 1] == '\n',
{
}

/// The kind of the token that `:` at `i` of `s` begins.
pub open spec fn colon_kind(s: Seq<char>, i: int) -> TokenKind {
    if i + 1 < s.len() && s[i + 1] == '=' {
        TokenKind::ColonEquals
    } else if i + 1 < s.len() && s[i + 1] == ':' {
        TokenKind::ColonColon
    } else {
        TokenKind::Colon
    }
}

/// The kind of the first of `choices[j..]` whose character is `c`.
pub open spec fn first_choice(choices: Seq<(char, TokenKind)>, c: char, j: int) -> Option<TokenKind>
    decreases choices.len() - j,
{
    if j < 0 || j >= choices.len() {
        None
    } else if choices[j].0 == c {
        Some(choices[j].1)
    } else {
        first_choice(choices, c, j + 1)
    }
}

/// At `i` of `s` stands a backslash that ends the text, whose effect on the
/// lexer's state `normal_end` does not describe.
pub open spec fn final_backslash(s: Seq<char>, i: int) -> bool {
    s[i] == '\\' && i + 1 >= s.len()
}

/// Where an escaped line break at `i` of `s` ends: after the line break
/// and the blanks that follow it.
pub open spec fn escape_end(s: Seq<char>, i: int) -> int {
    if s[i + 1] == '\n' {
        blanks_end(s, i + 2)
    } else {
        blanks_end(s, i + 3)
    }
}

/// The open delimiters after the token at `i` of `s`, when `open` were
/// open before it: an opening delimiter is added with its line, and a
/// closing one closes the innermost.
pub open spec fn delimiters_after(s: Seq<char>, i: int, open: Seq<(Delimiter, usize)>) -> Seq<
    (Delimiter, usize),
> {
    let c = s[i];
    if c == '(' {
        open.push((Delimiter::Paren, prefix_line(s, i) as usize))
    } else if c == '[' {
        open.push((Delimiter::Bracket, prefix_line(s, i) as usize))
    } else if c == '{' {
        open.push((Delimiter::Brace, prefix_line(s, i) as usize))
    } else if c == ')' || c == ']' || c == '}' {
        open.drop_last()
    } else {
        open
    }
}

/// Where the token that lexing outside recipe bodies reads at `i` of `s`
/// ends, unless `final_backslash` holds there.
pub open spec fn normal_end(s: Seq<char>, i: int) -> int {
    let c = s[i];
    if is_blank(c) {
        blanks_end(s, i)
    } else if spec_is_identifier_start(c) {
        identifier_end(s, i + 1)
    } else if c == '#' {
        comment_end(s, i + 1)
    } else if c == '!' || c == '&' || c == '|' || c == '\r' {
        i + 2
    } else if c == ':' {
        if colon_kind(s, i) == TokenKind::Colon {
            i + 1
        } else {
            i + 2
        }
    } else if c == '=' {
        if i + 1 < s.len() && (s[i + 1] == '=' || s[i + 1] == '~') {
            i + 2
        } else {
            i + 1
        }
    } else if c == '`' || c == '"' || c == '\'' {
        string_end(s, i)
    } else if c == '\\' {
        escape_end(s, i)
    } else {
        i + 1
    }
}

/// Where a comment whose text goes on at `i` of `s` ends: before the line
/// ending that follows, or at the end of `s`.
pub open spec fn comment_end(s: Seq<char>, i: int) -> int
    decreases s.len() - i,
{
    if i < 0 || i >= s.len() || s[i] == '\n' || (s[i] == '\r' && i + 1 < s.len() && s[i + 1] == '\n') {
        i
    } else {
        comment_end(s, i + 1)
    }
}

/// The kind of the token that a character with two-character `choices`
/// begins at `i` of `s`, falling back on `otherwise`.
pub open spec fn choices_kind(
    s: Seq<char>,
    i: int,
    choices: Seq<(char, TokenKind)>,
    otherwise: Option<TokenKind>,
) -> TokenKind {
    if i + 1 < s.len() && first_choice(choices, s[i + 1], 0) is Some {
        first_choice(choices, s[i + 1], 0)->0
    } else {
        otherwise->0
    }
}

/// The kind of the string token that starts at `i` of `s`.
pub open spec fn string_kind_at(s: Seq<char>, i: int) -> TokenKind {
    string_token_kind(spec_kind_at(s, i)->0)
}

/// The kind of the token that lexing outside recipe bodies emits at `i` of
/// `s`, where `open` are the open delimiters. (A backslash that ends the
/// text emits none.)
pub open spec fn normal_kind(s: Seq<char>, i: int, open: Seq<(Delimiter, usize)>) -> TokenKind {
    let c = s[i];
    if is_blank(c) {
        TokenKind::Whitespace
    } else if c == '!' {
        if s[i + 1] == '=' {
            TokenKind::BangEquals
        } else {
            TokenKind::BangTilde
        }
    } else if c == '#' {
        TokenKind::Comment
    } else if c == '$' {
        TokenKind::Dollar
    } else if c == '&' {
        TokenKind::AmpersandAmpersand
    } else if c == '(' {
        TokenKind::ParenL
    } else if c == ')' {
        TokenKind::ParenR
    } else if c == '*' {
        TokenKind::Asterisk
    } else if c == '+' {
        TokenKind::Plus
    } else if c == ',' {
        TokenKind::Comma
    } else if c == '/' {
        TokenKind::Slash
    } else if c == ':' {
        colon_kind(s, i)
    } else if c == '=' {
        if i + 1 < s.len() && s[i + 1] == '=' {
            TokenKind::EqualsEquals
        } else if i + 1 < s.len() && s[i + 1] == '~' {
            TokenKind::EqualsTilde
        } else {
            TokenKind::Equals
        }
    } else if c == '?' {
        TokenKind::QuestionMark
    } else if c == '@' {
        TokenKind::At
    } else if c == '[' {
        TokenKind::BracketL
    } else if c == '\\' || c == '\n' || c == '\r' {
        if open.len() > 0 || c == '\\' {
            TokenKind::Whitespace
        } else {
            TokenKind::Eol
        }
    } else if c == '\u{feff}' {
        TokenKind::ByteOrderMark
    } else if c == ']' {
        TokenKind::BracketR
    } else if c == '`' || c == '"' || c == '\'' {
        string_kind_at(s, i)
    } else if c == '{' {
        TokenKind::BraceL
    } else if c == '|' {
        TokenKind::BarBar
    } else if c == '}' {
        TokenKind::BraceR
    } else {
        TokenKind::Identifier
    }
}

/// The end of the run of identifier characters that starts at `i` of `s`.
pub open spec fn identifier_end(s: Seq<char>, i: int) -> int
    decreases s.len() - i,
{
    if 0 <= i < s.len() && spec_is_identifier_continue(s[i]) {
        identifier_end(s, i + 1)
    } else {
        i
    }
}

proof fn lemma_identifier_end(s: Seq<char>, i: int, k: int)
    requires
        0 <= i <= k <= s.len(),
        forall|j: int| i <= j < k ==> spec_is_identifier_continue(#[trigger] s[j]),
    ensures
        identifier_end(s, i) == identifier_end(s, k),
    decreases k - i,
{
    if i < k {
        lemma_identifier_end(s, i + 1, k);
    }
}

/// The runs of identifier characters and of blanks that start at `i` end
/// at or after `i`.
pub proof fn lemma_ends_grow(s: Seq<char>, i: int)
    ensures
        identifier_end(s, i) >= i,
        blanks_end(s, i) >= i,
        i <= s.len() ==> identifier_end(s, i) <= s.len() && blanks_end(s, i) <= s.len(),
    decreases s.len() - i,
{
    if 0 <= i < s.len() {
        lemma_ends_grow(s, i + 1);
    }
}

/// Where the token that plain text has at `i` of `s` ends: after a word,
/// after a run of blanks, else after the one character.
pub open spec fn plain_step_end(s: Seq<char>, i: int) -> int {
    if spec_is_identifier_start(s[i]) {
        identifier_end(s, i + 1)
    } else if is_blank(s[i]) {
        blanks_end(s, i)
    } else {
        i + 1
    }
}

/// The kinds of the tokens that lexing the plain text `s` gives from `i`
/// on: one token per word, run of blanks, line feed or punctuation
/// character, then the end of the file.
pub open spec fn plain_kinds(s: Seq<char>, i: int) -> Seq<TokenKind>
    decreases s.len() - i,
{
    if i < 0 || i >= s.len() {
        seq![TokenKind::Eof]
    } else {
        proof {
            lemma_ends_grow(s, i + 1);
            if is_blank(s[i]) {
                assert(blanks_end(s, i) == blanks_end(s, i + 1));
            }
            assert(plain_step_end(s, i) > i);
            assert(plain_step_end(s, i) <= s.len());
        }
        seq![normal_kind(s, i, Seq::empty())] + plain_kinds(s, plain_step_end(s, i))
    }
}

/// Why lexing stops, where the lexer's contract says so: the blanks at the
/// line start `at` do not fit the indentation `levels` (with a recipe body
/// open or not); the token at `at` cannot be lexed (or an interpolation is
/// still open at the end); or the text ends with a backslash at `at`, whose
/// outcome this contract leaves unstated.
pub enum LexFailure {
    LineStart { at: int, levels: Seq<Seq<char>>, body: bool },
    Token { at: int },
    Unstated { at: int },
}

/// A line of `s` begins at `i`.
pub open spec fn at_line_start(s: Seq<char>, i: int) -> bool {
    i == 0 || (0 < i <= s.len() && s[i - 1] == '\n')
}

/// A dedent for each of `levels` but the outermost, then the end of the
/// file.
pub open spec fn closing_kinds(levels: Seq<Seq<char>>) -> Seq<TokenKind> {
    Seq::new((levels.len() - 1) as nat, |_k: int| TokenKind::Dedent) + seq![TokenKind::Eof]
}

/// `kinds` followed by what `rest` holds, or the failure of `rest`.
pub open spec fn prepend_kinds(kinds: Seq<TokenKind>, rest: Result<Seq<TokenKind>, LexFailure>) -> Result<Seq<TokenKind>, LexFailure> {
    match rest {
        Ok(more) => Ok(kinds + more),
        Err(failure) => Err(failure),
    }
}

proof fn lemma_prepend_kinds(a: Seq<TokenKind>, b: Seq<TokenKind>, rest: Result<Seq<TokenKind>, LexFailure>)
    ensures
        prepend_kinds(a, prepend_kinds(b, rest)) == prepend_kinds(a + b, rest),
{
    if let Ok(more) = rest {
        assert(a + (b + more) =~= (a + b) + more);
    }
}

proof fn lemma_line_start_failure(
    s: Seq<char>,
    i: int,
    levels: Seq<Seq<char>>,
    body: bool,
    pending: bool,
    open: Seq<(Delimiter, usize)>,
    interp: nat,
    before: Seq<TokenKind>,
)
    requires
        0 <= i <= s.len(),
        at_line_start(s, i),
        !line_start_ok(s, i, levels, body),
    ensures
        prepend_kinds(before, lex_kinds(s, i, levels, body, pending, open, interp)) == Err::<
            Seq<TokenKind>,
            LexFailure,
        >(LexFailure::LineStart { at: i, levels, body }),
{
    reveal(lex_kinds);    lemma_ends_grow(s, i);
    if i >= s.len() {
        assert(blank_line_at(s, i));
    }
}

proof fn lemma_line_start_outcome(
    s: Seq<char>,
    i: int,
    levels: Seq<Seq<char>>,
    body: bool,
    pending: bool,
    open: Seq<(Delimiter, usize)>,
    interp: nat,
    before: Seq<TokenKind>,
    after: Seq<TokenKind>,
    j: int,
    next_levels: Seq<Seq<char>>,
    next_body: bool,
    next_pending: bool,
)
    requires
        0 <= i <= s.len(),
        at_line_start(s, i),
        line_start_ok(s, i, levels, body),
        after == before + line_start_kinds(s, i, levels, body, open.len() > 0),
        j == line_start_end(s, i, levels, body),
        next_levels == line_start_levels(s, i, levels, body, open.len() > 0),
        (next_body, next_pending) == line_start_flags(s, i, levels, body, pending, open.len() > 0),
    ensures
        prepend_kinds(before, lex_kinds(s, i, levels, body, pending, open, interp)) == prepend_kinds(
            after,
            lex_step_kinds(s, j, next_levels, next_body, next_pending, open, interp),
        ),
{
    reveal(lex_kinds);    reveal(lex_step_kinds);
    lemma_ends_grow(s, i);
    lemma_prepend_kinds(
        before,
        line_start_kinds(s, i, levels, body, open.len() > 0),
        lex_step_kinds(s, j, next_levels, next_body, next_pending, open, interp),
    );
    if i >= s.len() {
        assert(blank_line_at(s, i));
        assert(s.subrange(i, blanks_end(s, i)) =~= Seq::<char>::empty());
        assert(line_start_kinds(s, i, levels, body, open.len() > 0) =~= Seq::<TokenKind>::empty());
        assert(after =~= before);
    }
}

/// The text of a recipe body line ends at or after its start, within `s`,
/// before a line ending or a `{{`, or at the end of `s`; so lexing the line
/// moves past its start and stays within `s`.
pub proof fn lemma_body_text_end_grows(s: Seq<char>, i: int)
    requires
        0 <= i <= s.len(),
    ensures
        i <= body_text_end(s, i) <= s.len(),
        body_text_end(s, i) < s.len() ==> ({
            let e = body_text_end(s, i);
            s[e] == '\n' || (e + 1 < s.len() && ((s[e] == '\r' && s[e + 1] == '\n') || (s[e] == '{'
                && s[e + 1] == '{')))
        }),
        i < s.len() ==> i < body_end(s, i) <= s.len(),
    decreases s.len() - i,
{
    if i < s.len() {
        if i + 4 <= s.len() && s[i] == '{' && s[i + 1] == '{' && s[i + 2] == '{' && s[i + 3] == '{' {
            lemma_body_text_end_grows(s, i + 4);
        } else if !(s[i] == '\n' || (i + 1 < s.len() && s[i] == '\r' && s[i + 1] == '\n') || (i + 1
            < s.len() && s[i] == '{' && s[i + 1] == '{')) {
            lemma_body_text_end_grows(s, i + 1);
        }
    }
}

/// The comment that goes on at `i` of `s` ends at or after `i`, within
/// `s`.
pub proof fn lemma_comment_end(s: Seq<char>, i: int)
    requires
        0 <= i <= s.len(),
    ensures
        i <= comment_end(s, i) <= s.len(),
    decreases s.len() - i,
{
    if i < s.len() && !(s[i] == '\n' || (s[i] == '\r' && i + 1 < s.len() && s[i + 1] == '\n')) {
        lemma_comment_end(s, i + 1);
    }
}

/// A token that lexes at `i` of `s` ends after `i`, within `s`.
pub proof fn lemma_normal_end_grows(s: Seq<char>, i: int, open: Seq<(Delimiter, usize)>)
    requires
        0 <= i < s.len(),
        normal_ok(s, i, open),
        !final_backslash(s, i),
    ensures
        i < normal_end(s, i) <= s.len(),
{
    lemma_ends_grow(s, i + 1);
    if is_blank(s[i]) {
        assert(blanks_end(s, i) == blanks_end(s, i + 1));
    }
    let c = s[i];
    if c == '#' {
        lemma_comment_end(s, i + 1);
    }
    if c == '\\' {
        if s[i + 1] == '\n' {
            lemma_ends_grow(s, i + 2);
        } else {
            lemma_ends_grow(s, i + 3);
        }
    }
    if (c == '`' || c == '"' || c == '\'') && !is_blank(c) {
        let k = spec_kind_at(s, i)->0;
        let d = spec_delimiter(k);
        assert(d.len() >= 1);
        lemma_string_close_at(s, i + d.len(), d, k.delimiter == StringDelimiter::QuoteDouble, false);
    }
}

/// The kinds of the tokens that lexing `s` gives from `i` on, with the
/// indentation levels `levels` open, inside a recipe body or not (`body`),
/// with a body pending after a colon or not (`pending`), with the
/// delimiters `open` open and `interp` interpolations open: at the start of
/// a line, what `line_start_kinds` gives for its blanks; inside an
/// interpolation, its end at `}}`, else the token of `normal_kind`; in a
/// recipe body, the text and end of each line or the start of an
/// interpolation; elsewhere the token of `normal_kind` at each
/// `normal_end`; at the end, a dedent for each open level and the end of
/// the file. Or where lexing fails, as `LexFailure` says.
#[verifier::opaque]
pub open spec fn lex_kinds(
    s: Seq<char>,
    i: int,
    levels: Seq<Seq<char>>,
    body: bool,
    pending: bool,
    open: Seq<(Delimiter, usize)>,
    interp: nat,
) -> Result<Seq<TokenKind>, LexFailure>
    decreases s.len() - i,
{
    if i < 0 || i >= s.len() {
        if interp > 0 {
            Err(LexFailure::Token { at: i })
        } else {
            Ok(closing_kinds(levels))
        }
    } else if at_line_start(s, i) {
        if !line_start_ok(s, i, levels, body) {
            Err(LexFailure::LineStart { at: i, levels, body })
        } else {
            let j = line_start_end(s, i, levels, body);
            let next_levels = line_start_levels(s, i, levels, body, open.len() > 0);
            let flags = line_start_flags(s, i, levels, body, pending, open.len() > 0);
            proof {
                reveal_strlit("}}");
                lemma_ends_grow(s, i);
                if 0 <= j <= s.len() {
                    lemma_body_text_end_grows(s, j);
                }
                if 0 <= j < s.len() && normal_ok(s, j, open) && !final_backslash(s, j) {
                    lemma_normal_end_grows(s, j, open);
                }
            }
            prepend_kinds(
                line_start_kinds(s, i, levels, body, open.len() > 0),
                if j < 0 || j >= s.len() {
                    if interp > 0 {
                        Err(LexFailure::Token { at: j })
                    } else {
                        Ok(closing_kinds(next_levels))
                    }
                } else if interp > 0 {
                    if occurs_at(s, "}}"@, j) {
                        prepend_kinds(
                            seq![TokenKind::InterpolationEnd],
                            lex_kinds(s, j + 2, next_levels, flags.0, flags.1, open, (interp - 1) as nat),
                        )
                    } else if s[j] == '\n' || occurs_at(s, "\r\n"@, j) {
                        Err(LexFailure::Token { at: j })
                    } else if final_backslash(s, j) {
                        Err(LexFailure::Unstated { at: j })
                    } else if !normal_ok(s, j, open) {
                        Err(LexFailure::Token { at: j })
                    } else {
                        prepend_kinds(
                            seq![normal_kind(s, j, open)],
                            lex_kinds(
                                s,
                                normal_end(s, j),
                                next_levels,
                                flags.0,
                                flags.1 || (s[j] == ':' && colon_kind(s, j) == TokenKind::Colon),
                                delimiters_after(s, j, open),
                                interp,
                            ),
                        )
                    }
                } else if flags.0 {
                    prepend_kinds(
                        body_kinds(s, j),
                        lex_kinds(
                            s,
                            body_end(s, j),
                            next_levels,
                            flags.0,
                            flags.1,
                            open,
                            if body_text_end(s, j) < s.len() && s[body_text_end(s, j)] == '{' {
                                interp + 1
                            } else {
                                interp
                            },
                        ),
                    )
                } else if final_backslash(s, j) {
                    Err(LexFailure::Unstated { at: j })
                } else if !normal_ok(s, j, open) {
                    Err(LexFailure::Token { at: j })
                } else {
                    prepend_kinds(
                        seq![normal_kind(s, j, open)],
                        lex_kinds(
                            s,
                            normal_end(s, j),
                            next_levels,
                            flags.0,
                            flags.1 || (s[j] == ':' && colon_kind(s, j) == TokenKind::Colon),
                            delimiters_after(s, j, open),
                            interp,
                        ),
                    )
                },
            )
        }
    } else {
        proof {
            reveal_strlit("}}");
            lemma_body_text_end_grows(s, i);
            if normal_ok(s, i, open) && !final_backslash(s, i) {
                lemma_normal_end_grows(s, i, open);
            }
        }
        if i < 0 || i >= s.len() {
            if interp > 0 {
                Err(LexFailure::Token { at: i })
            } else {
                Ok(closing_kinds(levels))
            }
        } else if interp > 0 {
            if occurs_at(s, "}}"@, i) {
                prepend_kinds(
                    seq![TokenKind::InterpolationEnd],
                    lex_kinds(s, i + 2, levels, body, pending, open, (interp - 1) as nat),
                )
            } else if s[i] == '\n' || occurs_at(s, "\r\n"@, i) {
                Err(LexFailure::Token { at: i })
            } else if final_backslash(s, i) {
                Err(LexFailure::Unstated { at: i })
            } else if !normal_ok(s, i, open) {
                Err(LexFailure::Token { at: i })
            } else {
                prepend_kinds(
                    seq![normal_kind(s, i, open)],
                    lex_kinds(
                        s,
                        normal_end(s, i),
                        levels,
                        body,
                        pending || (s[i] == ':' && colon_kind(s, i) == TokenKind::Colon),
                        delimiters_after(s, i, open),
                        interp,
                    ),
                )
            }
        } else if body {
            prepend_kinds(
                body_kinds(s, i),
                lex_kinds(
                    s,
                    body_end(s, i),
                    levels,
                    body,
                    pending,
                    open,
                    if body_text_end(s, i) < s.len() && s[body_text_end(s, i)] == '{' {
                        interp + 1
                    } else {
                        interp
                    },
                ),
            )
        } else if final_backslash(s, i) {
            Err(LexFailure::Unstated { at: i })
        } else if !normal_ok(s, i, open) {
            Err(LexFailure::Token { at: i })
        } else {
            prepend_kinds(
                seq![normal_kind(s, i, open)],
                lex_kinds(
                    s,
                    normal_end(s, i),
                    levels,
                    body,
                    pending || (s[i] == ':' && colon_kind(s, i) == TokenKind::Colon),
                    delimiters_after(s, i, open),
                    interp,
                ),
            )
        }
    }
}

/// What lexing gives from `i` on once the start of its line is dealt with:
/// the tokens at `i` and what follows them, or what the end gives.
#[verifier::opaque]
pub open spec fn lex_step_kinds(
    s: Seq<char>,
    i: int,
    levels: Seq<Seq<char>>,
    body: bool,
    pending: bool,
    open: Seq<(Delimiter, usize)>,
    interp: nat,
) -> Result<Seq<TokenKind>, LexFailure> {
    if i < 0 || i >= s.len() {
        if interp > 0 {
            Err(LexFailure::Token { at: i })
        } else {
            Ok(closing_kinds(levels))
        }
    } else if interp > 0 {
        if occurs_at(s, "}}"@, i) {
            prepend_kinds(
                seq![TokenKind::InterpolationEnd],
                lex_kinds(s, i + 2, levels, body, pending, open, (interp - 1) as nat),
            )
        } else if s[i] == '\n' || occurs_at(s, "\r\n"@, i) {
            Err(LexFailure::Token { at: i })
        } else if final_backslash(s, i) {
            Err(LexFailure::Unstated { at: i })
        } else if !normal_ok(s, i, open) {
            Err(LexFailure::Token { at: i })
        } else {
            prepend_kinds(
                seq![normal_kind(s, i, open)],
                lex_kinds(
                    s,
                    normal_end(s, i),
                    levels,
                    body,
                    pending || (s[i] == ':' && colon_kind(s, i) == TokenKind::Colon),
                    delimiters_after(s, i, open),
                    interp,
                ),
            )
        }
    } else if body {
        prepend_kinds(
            body_kinds(s, i),
            lex_kinds(
                s,
                body_end(s, i),
                levels,
                body,
                pending,
                open,
                if body_text_end(s, i) < s.len() && s[body_text_end(s, i)] == '{' {
                    interp + 1
                } else {
                    interp
                },
            ),
        )
    } else if final_backslash(s, i) {
        Err(LexFailure::Unstated { at: i })
    } else if !normal_ok(s, i, open) {
        Err(LexFailure::Token { at: i })
    } else {
        prepend_kinds(
            seq![normal_kind(s, i, open)],
            lex_kinds(
                s,
                normal_end(s, i),
                levels,
                body,
                pending || (s[i] == ':' && colon_kind(s, i) == TokenKind::Colon),
                delimiters_after(s, i, open),
                interp,
            ),
        )
    }
}

proof fn lemma_mid_line(
    s: Seq<char>,
    i: int,
    levels: Seq<Seq<char>>,
    body: bool,
    pending: bool,
    open: Seq<(Delimiter, usize)>,
    interp: nat,
)
    requires
        0 <= i,
        i >= s.len() || !at_line_start(s, i),
    ensures
        lex_kinds(s, i, levels, body, pending, open, interp) == lex_step_kinds(
            s,
            i,
            levels,
            body,
            pending,
            open,
            interp,
        ),
{
    reveal(lex_kinds);    reveal(lex_step_kinds);
}

proof fn lemma_step_at_end(
    s: Seq<char>,
    i: int,
    levels: Seq<Seq<char>>,
    body: bool,
    pending: bool,
    open: Seq<(Delimiter, usize)>,
    interp: nat,
)
    requires
        i >= s.len(),
    ensures
        lex_step_kinds(s, i, levels, body, pending, open, interp) == if interp > 0 {
            Err::<Seq<TokenKind>, LexFailure>(LexFailure::Token { at: i })
        } else {
            Ok(closing_kinds(levels))
        },
{
    reveal(lex_step_kinds);
}

proof fn lemma_body_step_outcome(
    s: Seq<char>,
    i: int,
    levels: Seq<Seq<char>>,
    pending: bool,
    open: Seq<(Delimiter, usize)>,
    before: Seq<TokenKind>,
    after: Seq<TokenKind>,
)
    requires
        0 <= i < s.len(),
        after == before + body_kinds(s, i),
    ensures
        prepend_kinds(before, lex_step_kinds(s, i, levels, true, pending, open, 0)) == prepend_kinds(
            after,
            lex_kinds(
                s,
                body_end(s, i),
                levels,
                true,
                pending,
                open,
                if body_text_end(s, i) < s.len() && s[body_text_end(s, i)] == '{' {
                    1
                } else {
                    0
                },
            ),
        ),
{
    reveal(lex_step_kinds);
    lemma_prepend_kinds(
        before,
        body_kinds(s, i),
        lex_kinds(
            s,
            body_end(s, i),
            levels,
            true,
            pending,
            open,
            if body_text_end(s, i) < s.len() && s[body_text_end(s, i)] == '{' {
                1
            } else {
                0
            },
        ),
    );
}

proof fn lemma_normal_step_outcome(
    s: Seq<char>,
    i: int,
    levels: Seq<Seq<char>>,
    body: bool,
    pending: bool,
    open: Seq<(Delimiter, usize)>,
    interp: nat,
    before: Seq<TokenKind>,
    after: Seq<TokenKind>,
)
    requires
        0 <= i < s.len(),
        interp == 0 ==> !body,
        interp > 0 ==> !occurs_at(s, "}}"@, i) && !(s[i] == '\n' || occurs_at(s, "\r\n"@, i)),
        !final_backslash(s, i),
        normal_ok(s, i, open),
        after == before + seq![normal_kind(s, i, open)],
    ensures
        prepend_kinds(before, lex_step_kinds(s, i, levels, body, pending, open, interp))
            == prepend_kinds(
            after,
            lex_kinds(
                s,
                normal_end(s, i),
                levels,
                body,
                pending || (s[i] == ':' && colon_kind(s, i) == TokenKind::Colon),
                delimiters_after(s, i, open),
                interp,
            ),
        ),
{
    reveal(lex_step_kinds);
    lemma_prepend_kinds(
        before,
        seq![normal_kind(s, i, open)],
        lex_kinds(
            s,
            normal_end(s, i),
            levels,
            body,
            pending || (s[i] == ':' && colon_kind(s, i) == TokenKind::Colon),
            delimiters_after(s, i, open),
            interp,
        ),
    );
}

proof fn lemma_interpolation_end_outcome(
    s: Seq<char>,
    i: int,
    levels: Seq<Seq<char>>,
    body: bool,
    pending: bool,
    open: Seq<(Delimiter, usize)>,
    interp: nat,
    before: Seq<TokenKind>,
    after: Seq<TokenKind>,
)
    requires
        0 <= i < s.len(),
        interp > 0,
        occurs_at(s, "}}"@, i),
        after == before + seq![TokenKind::InterpolationEnd],
    ensures
        prepend_kinds(before, lex_step_kinds(s, i, levels, body, pending, open, interp))
            == prepend_kinds(after, lex_kinds(s, i + 2, levels, body, pending, open, (interp - 1) as nat)),
{
    reveal(lex_step_kinds);
    lemma_prepend_kinds(
        before,
        seq![TokenKind::InterpolationEnd],
        lex_kinds(s, i + 2, levels, body, pending, open, (interp - 1) as nat),
    );
}

proof fn lemma_step_unstated(
    s: Seq<char>,
    i: int,
    levels: Seq<Seq<char>>,
    body: bool,
    pending: bool,
    open: Seq<(Delimiter, usize)>,
    interp: nat,
    before: Seq<TokenKind>,
)
    requires
        0 <= i < s.len(),
        final_backslash(s, i),
        interp == 0 ==> !body,
    ensures
        prepend_kinds(before, lex_step_kinds(s, i, levels, body, pending, open, interp)) == Err::<
            Seq<TokenKind>,
            LexFailure,
        >(LexFailure::Unstated { at: i }),
{
    reveal(lex_step_kinds);
    reveal_strlit("}}");
    reveal_strlit("\r\n");
    if interp > 0 {
        assert(!occurs_at(s, "}}"@, i));
        assert(!occurs_at(s, "\r\n"@, i));
    }
}

proof fn lemma_step_failure(
    s: Seq<char>,
    i: int,
    levels: Seq<Seq<char>>,
    body: bool,
    pending: bool,
    open: Seq<(Delimiter, usize)>,
    interp: nat,
    before: Seq<TokenKind>,
)
    requires
        0 <= i < s.len(),
        !final_backslash(s, i),
        interp > 0 ==> !occurs_at(s, "}}"@, i) && (s[i] == '\n' || occurs_at(s, "\r\n"@, i)
            || !normal_ok(s, i, open)),
        interp == 0 ==> !body && !normal_ok(s, i, open),
    ensures
        prepend_kinds(before, lex_step_kinds(s, i, levels, body, pending, open, interp)) == Err::<
            Seq<TokenKind>,
            LexFailure,
        >(LexFailure::Token { at: i }),
{
    reveal(lex_step_kinds);
}

/// The kinds of `tokens`, in order.
pub open spec fn token_kinds(tokens: Seq<Token>) -> Seq<TokenKind> {
    tokens.map_values(|t: Token| t.kind)
}

/// How a line begins relative to the current indentation.
enum LineStart {
    /// Line only contains whitespace
    Blank,
    /// Indentation continues
    Continue,
    /// Indentation decreases
    Decrease,
    /// Indentation isn't consistent
    Inconsistent,
    /// Indentation increases
    Increase,
    /// Indentation mixes spaces and tabs; the whitespace `src[.0...1]`
    Mixed { from: usize, to: usize },
}

/// Where the text of a recipe body line that starts at `i` of `s` ends:
/// before a line ending or a `{{` that opens an interpolation, or at the end
/// of `s`; an escaped `{{{{` is text.
pub open spec fn body_text_end(s: Seq<char>, i: int) -> int
    decreases s.len() - i,
{
    if i < 0 || i >= s.len() {
        i
    } else if i + 4 <= s.len() && s[i] == '{' && s[i + 1] == '{' && s[i + 2] == '{' && s[i + 3] == '{' {
        body_text_end(s, i + 4)
    } else if s[i] == '\n' || (i + 1 < s.len() && s[i] == '\r' && s[i + 1] == '\n') || (i + 1
        < s.len() && s[i] == '{' && s[i + 1] == '{') {
        i
    } else {
        body_text_end(s, i + 1)
    }
}

/// The kinds of the tokens that a recipe body line at `i` of `s` gives:
/// its text, if any, then the line ending or the start of an
/// interpolation that ends the text.
pub open spec fn body_kinds(s: Seq<char>, i: int) -> Seq<TokenKind> {
    let e = body_text_end(s, i);
    let text = if e > i {
        seq![TokenKind::Text]
    } else {
        Seq::empty()
    };
    text + if e >= s.len() {
        Seq::empty()
    } else if s[e] == '{' {
        seq![TokenKind::InterpolationStart]
    } else {
        seq![TokenKind::Eol]
    }
}

/// Where lexing a recipe body line at `i` of `s` leaves off: after the
/// line ending or the `{{` that ends its text, or at the end of `s`.
pub open spec fn body_end(s: Seq<char>, i: int) -> int {
    let e = body_text_end(s, i);
    if e >= s.len() {
        e
    } else if s[e] == '\n' {
        e + 1
    } else {
        e + 2
    }
}

proof fn lemma_body_step(s: Seq<char>, i: int)
    requires
        0 <= i < s.len(),
    ensures
        occurs_at(s, "{{{{"@, i) ==> body_text_end(s, i) == body_text_end(s, i + 4),
        !occurs_at(s, "{{{{"@, i) && (occurs_at(s, "\n"@, i) || occurs_at(s, "\r\n"@, i)
            || occurs_at(s, "{{"@, i)) ==> body_text_end(s, i) == i,
        !occurs_at(s, "{{{{"@, i) && !occurs_at(s, "\n"@, i) && !occurs_at(s, "\r\n"@, i)
            && !occurs_at(s, "{{"@, i) ==> body_text_end(s, i) == body_text_end(s, i + 1),
{
    reveal_strlit("{{{{");
    reveal_strlit("\n");
    reveal_strlit("\r\n");
    reveal_strlit("{{");
    if i + 4 <= s.len() && s[i] == '{' && s[i + 1] == '{' && s[i + 2] == '{' && s[i + 3] == '{' {
        assert(s.subrange(i, i + 4) =~= "{{{{"@);
    }
    if occurs_at(s, "{{{{"@, i) {
        assert(s.subrange(i, i + 4)[0] == '{' && s.subrange(i, i + 4)[1] == '{');
        assert(s.subrange(i, i + 4)[2] == '{' && s.subrange(i, i + 4)[3] == '{');
    }
    if s[i] == '\n' {
        assert(s.subrange(i, i + 1) =~= "\n"@);
    }
    if i + 1 < s.len() && s[i] == '\r' && s[i + 1] == '\n' {
        assert(s.subrange(i, i + 2) =~= "\r\n"@);
    }
    if i + 1 < s.len() && s[i] == '{' && s[i + 1] == '{' {
        assert(s.subrange(i, i + 2) =~= "{{"@);
    }
    if occurs_at(s, "\n"@, i) {
        assert(s.subrange(i, i + 1)[0] == '\n');
    }
    if occurs_at(s, "\r\n"@, i) {
        assert(s.subrange(i, i + 2)[0] == '\r' && s.subrange(i, i + 2)[1] == '\n');
    }
    if occurs_at(s, "{{"@, i) {
        assert(s.subrange(i, i + 2)[0] == '{' && s.subrange(i, i + 2)[1] == '{');
    }
}

/// What ends a run of text in a recipe body.
enum Terminator {
    EndOfFile,
    Interpolation,
    Newline,
    NewlineCarriageReturn,
}

/// A copy of `v`.
fn copy_vec(v: &Vec<char>) -> (r: Vec<char>)
    ensures
        r@ == v@,
{
    copy_range(v, 0, v.len())
}

/// The lexer's state.
pub struct Lexer {
    /// Source text
    src: Vec<char>,
    /// Indentation stack
    indentation: Vec<Vec<char>>,
    /// Interpolation token start stack
    interpolation_stack: Vec<Token>,
    /// Current open delimiters, with the lines they were opened on
    open_delimiters: Vec<(Delimiter, usize)>,
    /// Inside recipe body
    recipe_body: bool,
    /// Next indent will start a recipe body
    recipe_body_pending: bool,
    /// Character index of the current token start
    start: usize,
    /// Character index of the current token end
    end: usize,
    /// Current token start
    token_start: Position,
    /// Current token end
    token_end: Position,
    /// Tokens
    tokens: Vec<Token>,
    /// Character indices at which the tokens begin, and where the last ends
    bounds: Ghost<Seq<int>>,
}

impl Lexer {
    /// The state is consistent: positions agree with the text, the tokens
    /// tile the text up to the current token, and the indentation stack has
    /// the empty indentation at its bottom and only non-empty ones above it.
    pub closed spec fn wf(&self) -> bool {
        &&& self.wf_base()
        &&& self.indentation.len() == 1 + indent_depth(self.tokens@)
        &&& well_nested(self.tokens@)
    }

    /// The state is consistent, but for the indentation stack, which may be
    /// one step ahead of the tokens.
    spec fn wf_base(&self) -> bool {
        &&& self.start <= self.end <= self.src.len()
        &&& prefix_bytes(self.src@, self.src.len() as int) <= usize::MAX
        &&& is_position(self.src@, self.start as int, self.token_start)
        &&& is_position(self.src@, self.end as int, self.token_end)
        &&& tokens_tile(self.src@, self.tokens@, self.bounds@, self.start as int)
        &&& tokens_fit(self.src@, self.tokens@, self.bounds@)
        &&& self.indentation.len() >= 1
        &&& self.indentation@[0]@.len() == 0
        &&& forall|k: int| 1 <= k < self.indentation.len() ==> #[trigger] self.indentation@[k]@.len() > 0
    }

    /// `self` is `old` after some lexing: the text is the same and the token
    /// end has not moved back.
    spec fn stepped(&self, old: &Self) -> bool {
        &&& self.wf()
        &&& self.src@ == old.src@
        &&& self.end >= old.end
        &&& (old.clean() ==> self.clean())
    }

    /// No token is in progress, except a backslash at the end of the text.
    spec fn settled(&self) -> bool {
        ||| self.start == self.end
        ||| (self.end == self.src.len() && self.src@.subrange(self.start as int, self.end as int)
            == seq!['\\'])
    }

    /// No token so far is of unspecified kind.
    spec fn clean(&self) -> bool {
        no_unspecified(self.tokens@)
    }

    /// `self` has the tokens of `old` and one more, of kind `kind`.
    spec fn emitted(&self, old: &Self, kind: TokenKind) -> bool {
        &&& self.tokens@.len() > 0
        &&& self.tokens@ == old.tokens@.push(self.tokens@.last())
        &&& self.tokens@.last().kind == kind
    }

    /// The indentation levels, open delimiters, open interpolations and
    /// recipe-body state are those of `old`.
    spec fn same_layout(&self, old: &Self) -> bool {
        &&& self.indentation@ == old.indentation@
        &&& self.open_delimiters@ == old.open_delimiters@
        &&& self.interpolation_stack@ == old.interpolation_stack@
        &&& self.recipe_body == old.recipe_body
        &&& self.recipe_body_pending == old.recipe_body_pending
    }

    /// At a token boundary.
    spec fn lex_state(&self) -> bool {
        &&& self.start == self.end
    }

    /// At a token boundary with no indentation, delimiter or interpolation
    /// open, outside any recipe body, in plain text.
    spec fn plain_state(&self) -> bool {
        &&& plain_text(self.src@)
        &&& self.indentation.len() == 1
        &&& self.interpolation_stack@.len() == 0
        &&& self.open_delimiters@.len() == 0
        &&& !self.recipe_body
        &&& self.start == self.end
    }

    /// Where the current token ends.
    pub closed spec fn token_end_position(&self) -> Position {
        self.token_end
    }

    /// The character after the current token, if any.
    pub closed spec fn next_spec(&self) -> Option<char> {
        if self.end < self.src.len() {
            Some(self.src@[self.end as int])
        } else {
            None
        }
    }

    /// A lexer at the start of the text `src`. Fails only when the text has
    /// more bytes than a `usize` counts.
    pub fn new(src: &str) -> (r: Option<Self>)
        ensures
            r is Some <==> prefix_bytes(src@, src@.len() as int) <= usize::MAX,
            r matches Some(l) ==> l.wf() && l.next_spec() == (if src@.len() > 0 {
                Some(src@[0])
            } else {
                None
            }) && l.token_end_position() == (Position { offset: 0, line: 0, column: 0 }),
    {
        Self::with_chars(chars_of(src))
    }

    /// A lexer at the start of the text `src`. Fails only when the text has
    /// more bytes than a `usize` counts.
    fn with_chars(src: Vec<char>) -> (r: Option<Self>)
        ensures
            r is Some <==> prefix_bytes(src@, src@.len() as int) <= usize::MAX,
            r matches Some(l) ==> l.wf() && l.src@ == src@ && l.end == 0 && l.tokens@.len() == 0
                && !l.recipe_body && l.interpolation_stack@.len() == 0 && l.start == 0
                && l.open_delimiters@.len() == 0 && !l.recipe_body_pending && level_views(
                l.indentation@,
            ) == seq![Seq::<char>::empty()],
    {
        let mut total: usize = 0;
        let mut i: usize = 0;
        while i < src.len()
            invariant
                i <= src.len(),
                total == prefix_bytes(src@, i as int),
            decreases src.len() - i,
        {
            let w = len_utf8(src[i]);
            if total > usize::MAX - w {
                proof {
                    lemma_prefix_monotone(src@, i + 1, src@.len() as int);
                }
                return None;
            }
            total = total + w;
            i += 1;
        }
        let start = Position { offset: 0, column: 0, line: 0 };
        let empty: Vec<char> = Vec::new();
        let ghost first_bound: Seq<int> = seq![0int];
        let bounds: Ghost<Seq<int>> = Ghost(first_bound);
        let r = Lexer {
            src,
            indentation: vec![empty],
            interpolation_stack: Vec::new(),
            open_delimiters: Vec::new(),
            recipe_body: false,
            recipe_body_pending: false,
            start: 0,
            end: 0,
            token_start: start,
            token_end: start,
            tokens: Vec::new(),
            bounds,
        };
        assert(level_views(r.indentation@) =~= seq![Seq::<char>::empty()]);
        Some(r)
    }

    /// The next character to be lexed.
    fn next(&self) -> (r: Option<char>)
        ensures
            r == self.next_spec(),
    {
        if self.end < self.src.len() {
            Some(self.src[self.end])
        } else {
            None
        }
    }

    /// Is next character c?
    fn next_is(&self, c: char) -> (r: bool)
        ensures
            r == (self.next_spec() == Some(c)),
    {
        self.end < self.src.len() && self.src[self.end] == c
    }

    /// Is next character ' ' or '\t'?
    fn next_is_whitespace(&self) -> (r: bool)
        ensures
            r == (self.next_spec() matches Some(c) && is_blank(c)),
    {
        self.next_is(' ') || self.next_is('\t')
    }

    /// Check if unlexed text begins with `prefix`.
    fn rest_starts_with(&self, prefix: &str) -> (r: bool)
        ensures
            r == occurs_at(self.src@, prefix@, self.end as int),
    {
        let p = chars_of(prefix);
        occurs_at_exec(self.src.as_slice(), p.as_slice(), self.end)
    }

    /// Does the rest start with "\n" or "\r\n"?
    fn at_eol(&self) -> (r: bool)
        ensures
            r == (self.next_spec() == Some('\n') || occurs_at(self.src@, "\r\n"@, self.end as int)),
    {
        self.next_is('\n') || self.rest_starts_with("\r\n")
    }

    /// Are we at end-of-file?
    fn at_eof(&self) -> (r: bool)
        ensures
            r == (self.end >= self.src.len()),
    {
        self.end >= self.src.len()
    }

    /// Are we at end-of-line or end-of-file?
    fn at_eol_or_eof(&self) -> (r: bool)
        ensures
            r == (self.next_spec() == Some('\n') || occurs_at(self.src@, "\r\n"@, self.end as int)
                || self.end >= self.src.len()),
    {
        self.at_eol() || self.at_eof()
    }

    /// Are we currently indented?
    fn indented(&self) -> (r: bool)
        requires
            self.indentation.len() >= 1,
        ensures
            r == (self.indentation@[self.indentation.len() - 1]@.len() > 0),
    {
        self.indentation[self.indentation.len() - 1].len() > 0
    }

    /// Return true if there are any unclosed delimiters.
    fn open_delimiters(&self) -> (r: bool)
        ensures
            r == (self.open_delimiters.len() > 0),
    {
        self.open_delimiters.len() > 0
    }

    /// Length in bytes of the current token.
    fn current_token_length(&self) -> (r: usize)
        requires
            self.wf(),
        ensures
            r == prefix_bytes(self.src@, self.end as int) - prefix_bytes(self.src@, self.start as int),
    {
        proof {
            lemma_prefix_monotone(self.src@, self.start as int, self.end as int);
        }
        self.token_end.offset - self.token_start.offset
    }

    /// Advance over the next character, updating the token end.
    fn advance(&mut self)
        requires
            old(self).wf(),
            old(self).end < old(self).src.len(),
        ensures
            final(self).wf(),
            final(self).end == old(self).end + 1,
            final(self).src@ == old(self).src@,
            final(self).start == old(self).start,
            final(self).tokens@ == old(self).tokens@,
            final(self).indentation@ == old(self).indentation@,
            final(self).interpolation_stack@ == old(self).interpolation_stack@,
            final(self).open_delimiters@ == old(self).open_delimiters@,
            final(self).recipe_body == old(self).recipe_body,
            final(self).recipe_body_pending == old(self).recipe_body_pending,
            final(self).token_start == old(self).token_start,
    {
        let c = self.src[self.end];
        let len_utf8 = len_utf8(c);
        proof {
            lemma_prefix_monotone(self.src@, self.end + 1, self.src.len() as int);
            lemma_prefix_monotone(self.src@, self.end + 1, self.end + 1);
        }
        self.token_end.offset = self.token_end.offset + len_utf8;
        if c == '\n' {
            self.token_end.column = 0;
            self.token_end.line = self.token_end.line + 1;
        } else {
            self.token_end.column = self.token_end.column + len_utf8;
        }
        self.end = self.end + 1;
    }

    /// Advance over `n` characters.
    fn skip(&mut self, n: usize)
        requires
            old(self).wf(),
            old(self).end + n <= old(self).src.len(),
        ensures
            final(self).wf(),
            final(self).end == old(self).end + n,
            final(self).src@ == old(self).src@,
            final(self).start == old(self).start,
            final(self).tokens@ == old(self).tokens@,
            final(self).indentation@ == old(self).indentation@,
            final(self).interpolation_stack@ == old(self).interpolation_stack@,
            final(self).open_delimiters@ == old(self).open_delimiters@,
            final(self).recipe_body == old(self).recipe_body,
            final(self).recipe_body_pending == old(self).recipe_body_pending,
    {
        let mut i: usize = 0;
        while i < n
            invariant
                self.wf(),
                i <= n,
                self.end == old(self).end + i,
                old(self).end + n <= old(self).src.len(),
                self.src@ == old(self).src@,
                self.start == old(self).start,
                self.tokens@ == old(self).tokens@,
                self.indentation@ == old(self).indentation@,
                self.interpolation_stack@ == old(self).interpolation_stack@,
                self.open_delimiters@ == old(self).open_delimiters@,
                self.recipe_body == old(self).recipe_body,
                self.recipe_body_pending == old(self).recipe_body_pending,
            decreases n - i,
        {
            self.advance();
            i += 1;
        }
    }

    /// Advance over the next character if it is `c`.
    fn accepted(&mut self, c: char) -> (r: bool)
        requires
            old(self).wf(),
        ensures
            final(self).wf(),
            r == (old(self).next_spec() == Some(c)),
            final(self).end == old(self).end + if r {
                1int
            } else {
                0int
            },
            final(self).src@ == old(self).src@,
            final(self).start == old(self).start,
            final(self).tokens@ == old(self).tokens@,
            final(self).indentation@ == old(self).indentation@,
            final(self).interpolation_stack@ == old(self).interpolation_stack@,
            final(self).open_delimiters@ == old(self).open_delimiters@,
            final(self).recipe_body == old(self).recipe_body,
            final(self).recipe_body_pending == old(self).recipe_body_pending,
    {
        if self.next_is(c) {
            self.advance();
            true
        } else {
            false
        }
    }

    /// Advance over the next character, which must be `c`; else an internal
    /// error, with the lexer left as it was.
    pub fn presume(&mut self, c: char) -> (r: Result<(), CompileError>)
        requires
            old(self).wf(),
        ensures
            final(self).wf(),
            r is Ok <==> old(self).next_spec() == Some(c),
            r is Err ==> *final(self) == *old(self),
            r matches Err(e) ==> e.token == (Token {
                offset: old(self).token_end_position().offset,
                length: 0,
                line: old(self).token_end_position().line,
                column: old(self).token_end_position().column,
                kind: TokenKind::Unspecified,
            }),
            r matches Err(e) ==> (e.kind matches CompileErrorKind::Internal { message } && message@
                == presumed_message(c)),
    {
        if self.next_is(c) {
            self.advance_presumed(c);
            Ok(())
        } else {
            let mut message = String::new();
            append_str(&mut message, "Lexer presumed character `");
            push_char(&mut message, c);
            append_str(&mut message, "`");
            Err(self.internal_error(message.as_str()))
        }
    }

    /// Advance over the next character, which the caller knows to be `c`.
    fn advance_presumed(&mut self, c: char)
        requires
            old(self).wf(),
            old(self).next_spec() == Some(c),
        ensures
            final(self).wf(),
            final(self).end == old(self).end + 1,
            final(self).src@ == old(self).src@,
            final(self).start == old(self).start,
            final(self).tokens@ == old(self).tokens@,
            final(self).indentation@ == old(self).indentation@,
            final(self).interpolation_stack@ == old(self).interpolation_stack@,
            final(self).open_delimiters@ == old(self).open_delimiters@,
            final(self).recipe_body == old(self).recipe_body,
            final(self).recipe_body_pending == old(self).recipe_body_pending,
    {
        self.advance();
    }

    /// Create a new token with `kind` whose lexeme is between the token
    /// start and the token end.
    fn token(&mut self, kind: TokenKind)
        requires
            old(self).wf_base(),
            old(self).indentation.len() == 1 + indent_depth(old(self).tokens@) + depth_change(kind),
            well_nested(old(self).tokens@),
            indent_depth(old(self).tokens@) + depth_change(kind) >= 0,
            lexeme_fits(kind, old(self).src@.subrange(old(self).start as int, old(self).end as int)),
        ensures
            final(self).wf(),
            kind != TokenKind::Unspecified && old(self).clean() ==> final(self).clean(),
            final(self).start == old(self).end,
            final(self).end == old(self).end,
            final(self).src@ == old(self).src@,
            final(self).tokens@ == old(self).tokens@.push(
                Token {
                    offset: old(self).token_start.offset,
                    length: (old(self).token_end.offset - old(self).token_start.offset) as usize,
                    line: old(self).token_start.line,
                    column: old(self).token_start.column,
                    kind,
                },
            ),
            final(self).indentation@ == old(self).indentation@,
            final(self).interpolation_stack@ == old(self).interpolation_stack@,
            final(self).open_delimiters@ == old(self).open_delimiters@,
            final(self).recipe_body == old(self).recipe_body,
            final(self).recipe_body_pending == old(self).recipe_body_pending,
    {
        proof {
            lemma_prefix_monotone(self.src@, self.start as int, self.end as int);
        }
        let t = Token {
            offset: self.token_start.offset,
            length: self.token_end.offset - self.token_start.offset,
            line: self.token_start.line,
            column: self.token_start.column,
            kind,
        };
        let ghost old_tokens = self.tokens@;
        let ghost old_bounds = self.bounds@;
        self.tokens.push(t);
        let ghost end = self.end as int;
        self.bounds = Ghost(old_bounds.push(end));
        proof {
            assert forall|k: int| 0 <= k < self.tokens@.len() implies token_covers(
                self.src@,
                #[trigger] self.tokens@[k],
                self.bounds@[k],
                self.bounds@[k + 1],
            ) by {
                if k < old_tokens.len() {
                    assert(self.tokens@[k] == old_tokens[k]);
                    assert(token_covers(self.src@, old_tokens[k], old_bounds[k], old_bounds[k + 1]));
                }
            }
            assert forall|k: int| 0 <= k < self.tokens@.len() implies lexeme_fits(
                (#[trigger] self.tokens@[k]).kind,
                self.src@.subrange(self.bounds@[k], self.bounds@[k + 1]),
            ) by {
                if k < old_tokens.len() {
                    assert(self.tokens@[k] == old_tokens[k]);
                }
            }
            assert forall|k: int| 0 <= k < self.tokens@.len() && kind != TokenKind::Unspecified
                && no_unspecified(old_tokens) implies (#[trigger] self.tokens@[k]).kind
                != TokenKind::Unspecified by {
                if k < old_tokens.len() {
                    assert(self.tokens@[k] == old_tokens[k]);
                }
            }
            assert(self.tokens@.drop_last() =~= old_tokens);
            assert forall|n: int| 0 <= n <= self.tokens@.len() implies #[trigger] indent_depth(
                self.tokens@.take(n),
            ) >= 0 by {
                if n < self.tokens@.len() {
                    assert(self.tokens@.take(n) =~= old_tokens.take(n));
                } else {
                    assert(self.tokens@.take(n) =~= self.tokens@);
                }
            }
        }
        self.start = self.end;
        self.token_start = self.token_end;
    }

    /// Create an internal error with `message`, located at the token end.
    fn internal_error(&self, message: &str) -> (r: CompileError)
        ensures
            r.token == (Token {
                offset: self.token_end.offset,
                length: 0,
                line: self.token_end.line,
                column: self.token_end.column,
                kind: TokenKind::Unspecified,
            }),
            r.kind matches CompileErrorKind::Internal { message: m } && m@ == message@,
    {
        let token = Token {
            offset: self.token_end.offset,
            line: self.token_end.line,
            column: self.token_end.column,
            length: 0,
            kind: TokenKind::Unspecified,
        };
        CompileError::new(token, CompileErrorKind::Internal { message: String::from_str(message) })
    }

    /// Create a compilation error with `kind`, located at the token in
    /// progress.
    fn error(&self, kind: CompileErrorKind) -> (r: CompileError)
        requires
            self.wf(),
        ensures
            !(kind is UnterminatedString || kind is UnterminatedBacktick) ==> r.kind == kind
                && r.token == (Token {
                kind: TokenKind::Unspecified,
                offset: self.token_start.offset,
                line: self.token_start.line,
                column: self.token_start.column,
                length: (prefix_bytes(self.src@, self.end as int) - prefix_bytes(
                    self.src@,
                    self.start as int,
                )) as usize,
            }),
            (kind is UnterminatedString || kind is UnterminatedBacktick) ==> match spec_kind_at(
                self.src@.subrange(self.start as int, self.end as int),
                0,
            ) {
                Some(string_kind) => r.kind == kind && r.token == (Token {
                    kind: TokenKind::Unspecified,
                    offset: self.token_start.offset,
                    line: self.token_start.line,
                    column: self.token_start.column,
                    length: spec_delimiter(string_kind).len() as usize,
                }),
                None => r.kind is Internal,
            },
    {
        let length = match kind {
            CompileErrorKind::UnterminatedString | CompileErrorKind::UnterminatedBacktick => {
                let lexeme = copy_range(&self.src, self.start, self.end);
                match StringKind::from_token_start(lexeme.as_slice(), 0) {
                    Some(string_kind) => string_kind.delimiter_len(),
                    None => {
                        return self.internal_error(
                            "Lexer::error: expected string or backtick token start",
                        );
                    },
                }
            },
            _ => self.current_token_length(),
        };
        let token = Token {
            kind: TokenKind::Unspecified,
            offset: self.token_start.offset,
            line: self.token_start.line,
            column: self.token_start.column,
            length,
        };
        CompileError::new(token, kind)
    }

    fn unterminated_interpolation_error(interpolation_start: Token) -> (r: CompileError)
        ensures
            r.token == interpolation_start,
            r.kind == CompileErrorKind::UnterminatedInterpolation,
    {
        CompileError::new(interpolation_start, CompileErrorKind::UnterminatedInterpolation)
    }

    /// Lex a single-character token.
    fn lex_single(&mut self, kind: TokenKind) -> (r: Result<(), CompileError>)
        requires
            old(self).wf(),
            old(self).end < old(self).src.len(),
            old(self).start == old(self).end,
            kind != TokenKind::Unspecified,
            depth_change(kind) == 0,
            lexeme_fits(kind, seq![old(self).src@[old(self).end as int]]),
        ensures
            r is Ok,
            final(self).emitted(old(self), kind),
            final(self).same_layout(old(self)),
            final(self).start == final(self).end,
            final(self).stepped(old(self)),
            final(self).end == old(self).end + 1,
            final(self).recipe_body == old(self).recipe_body,
            final(self).interpolation_stack@ == old(self).interpolation_stack@,
    {
        self.advance();
        assert(self.src@.subrange(self.start as int, self.end as int) =~= seq![
            old(self).src@[old(self).end as int],
        ]);
        self.token(kind);
        Ok(())
    }

    /// Lex a double-character token.
    fn lex_double(&mut self, kind: TokenKind) -> (r: Result<(), CompileError>)
        requires
            old(self).wf(),
            old(self).end + 2 <= old(self).src.len(),
            old(self).start == old(self).end,
            kind != TokenKind::Unspecified,
            depth_change(kind) == 0,
            lexeme_fits(kind, old(self).src@.subrange(old(self).end as int, old(self).end + 2)),
        ensures
            r is Ok,
            final(self).emitted(old(self), kind),
            final(self).start == final(self).end,
            final(self).stepped(old(self)),
            final(self).end == old(self).end + 2,
            final(self).same_layout(old(self)),
            final(self).tokens@.len() == old(self).tokens@.len() + 1,
            final(self).recipe_body == old(self).recipe_body,
            final(self).interpolation_stack@ == old(self).interpolation_stack@,
    {
        self.advance();
        self.advance();
        self.token(kind);
        Ok(())
    }

    /// Lex a double-character token of a kind chosen by its second
    /// character among `choices`, otherwise a single-character token of kind
    /// `otherwise`.
    fn lex_choices(
        &mut self,
        first: char,
        choices: &[(char, TokenKind)],
        otherwise: Option<TokenKind>,
    ) -> (r: Result<(), CompileError>)
        requires
            old(self).wf(),
            old(self).next_spec() == Some(first),
            old(self).start == old(self).end,
            forall|i: int|
                0 <= i < choices.len() ==> (#[trigger] choices@[i]).1 != TokenKind::Unspecified
                    && depth_change(choices@[i].1) == 0 && lexeme_fits(
                    choices@[i].1,
                    seq![first, choices@[i].0],
                ),
            otherwise matches Some(k) ==> k != TokenKind::Unspecified && depth_change(k) == 0
                && lexeme_fits(k, seq![first]),
        ensures
            r is Ok ==> final(self).stepped(old(self)) && final(self).end > old(self).end
                && final(self).recipe_body == old(self).recipe_body && final(self).start
                == final(self).end,
            r is Ok <==> (otherwise is Some || (old(self).end + 1 < old(self).src@.len() && exists|
                i: int,
            |
                0 <= i < choices@.len() && (#[trigger] choices@[i]).0 == old(self).src@[old(
                    self,
                ).end + 1])),
            r is Ok ==> final(self).emitted(
                old(self),
                choices_kind(old(self).src@, old(self).end as int, choices@, otherwise),
            ),
            r is Ok ==> final(self).same_layout(old(self)),
            r is Ok ==> final(self).end == old(self).end + (if old(self).end + 1 < old(self).src@.len()
                && first_choice(choices@, old(self).src@[old(self).end + 1], 0) is Some {
                2int
            } else {
                1int
            }),
    {
        self.advance_presumed(first);
        let mut i: usize = 0;
        while i < choices.len()
            invariant
                self.wf(),
                self.stepped(old(self)),
                self.end == old(self).end + 1,
                self.start == old(self).start,
                self.tokens@ == old(self).tokens@,
                old(self).start == old(self).end,
                self.recipe_body == old(self).recipe_body,
                self.src@[old(self).end as int] == first,
                self.same_layout(old(self)),
                i <= choices.len(),
                old(self).end + 1 < self.src@.len() ==> forall|j: int|
                    0 <= j < i ==> (#[trigger] choices@[j]).0 != self.src@[old(self).end + 1],
                old(self).end + 1 < self.src@.len() ==> first_choice(
                    choices@,
                    self.src@[old(self).end + 1],
                    0,
                ) == first_choice(choices@, self.src@[old(self).end + 1], i as int),
                forall|i: int|
                    0 <= i < choices.len() ==> (#[trigger] choices@[i]).1 != TokenKind::Unspecified
                        && depth_change(choices@[i].1) == 0 && lexeme_fits(
                        choices@[i].1,
                        seq![first, choices@[i].0],
                    ),
            decreases choices.len() - i,
        {
            let (second, then) = choices[i];
            if self.accepted(second) {
                assert(self.src@.subrange(self.start as int, self.end as int) =~= seq![
                    first,
                    second,
                ]);
                assert(choices@[i as int].1 == then);
                self.token(then);
                return Ok(());
            }
            i += 1;
        }
        assert(self.src@.subrange(self.start as int, self.end as int) =~= seq![first]);
        if let Some(token) = otherwise {
            self.token(token);
        } else {
            // Emit an unspecified token to consume the current character,
            self.token(TokenKind::Unspecified);
            let mut expected: Vec<char> = Vec::new();
            let mut j: usize = 0;
            while j < choices.len()
                invariant
                    j <= choices.len(),
                decreases choices.len() - j,
            {
                expected.push(choices[j].0);
                j += 1;
            }
            if self.at_eof() {
                return Err(self.error(CompileErrorKind::UnexpectedEndOfToken { expected }));
            }
            // …and advance past another character,
            self.advance();
            // …so that the error we produce highlights the unexpected character.
            return Err(self.error(CompileErrorKind::UnexpectedCharacter { expected }));
        }
        Ok(())
    }

    /// Lex an opening or closing delimiter.
    fn lex_delimiter(&mut self, kind: TokenKind) -> (r: Result<(), CompileError>)
        requires
            old(self).wf(),
            old(self).end < old(self).src.len(),
            old(self).start == old(self).end,
            kind != TokenKind::Unspecified,
            depth_change(kind) == 0,
            lexeme_fits(kind, seq![old(self).src@[old(self).end as int]]),
        ensures
            r is Ok ==> final(self).stepped(old(self)) && final(self).end > old(self).end
                && final(self).recipe_body == old(self).recipe_body && final(self).start
                == final(self).end,
            r is Ok <==> match kind {
                TokenKind::BraceL | TokenKind::BracketL | TokenKind::ParenL => true,
                TokenKind::BraceR => closes_top(old(self).open_delimiters@, Delimiter::Brace),
                TokenKind::BracketR => closes_top(old(self).open_delimiters@, Delimiter::Bracket),
                TokenKind::ParenR => closes_top(old(self).open_delimiters@, Delimiter::Paren),
                _ => false,
            },
            r is Ok ==> final(self).emitted(old(self), kind),
            r is Ok ==> {
                &&& final(self).end == old(self).end + 1
                &&& final(self).indentation@ == old(self).indentation@
                &&& final(self).interpolation_stack@ == old(self).interpolation_stack@
                &&& final(self).recipe_body_pending == old(self).recipe_body_pending
                &&& final(self).open_delimiters@ == delimiters_after(
                    old(self).src@,
                    old(self).end as int,
                    old(self).open_delimiters@,
                )
            },
    {
        proof {
            assert(seq![self.src@[self.end as int]][0] == self.src@[self.end as int]);
            assert(self.token_start.line == prefix_line(self.src@, self.end as int));
        }
        match kind {
            TokenKind::BraceL => self.open_delimiter(Delimiter::Brace),
            TokenKind::BraceR => self.close_delimiter(Delimiter::Brace)?,
            TokenKind::BracketL => self.open_delimiter(Delimiter::Bracket),
            TokenKind::BracketR => self.close_delimiter(Delimiter::Bracket)?,
            TokenKind::ParenL => self.open_delimiter(Delimiter::Paren),
            TokenKind::ParenR => self.close_delimiter(Delimiter::Paren)?,
            _ => {
                return Err(self.internal_error(
                    "Lexer::lex_delimiter called with non-delimiter token",
                ));
            },
        }
        // Emit the delimiter token
        self.lex_single(kind)
    }

    /// Push a delimiter onto the open delimiter stack.
    fn open_delimiter(&mut self, delimiter: Delimiter)
        requires
            old(self).wf(),
        ensures
            final(self).wf(),
            final(self).open_delimiters@ == old(self).open_delimiters@.push(
                (delimiter, old(self).token_start.line),
            ),
            final(self).indentation@ == old(self).indentation@,
            final(self).recipe_body_pending == old(self).recipe_body_pending,
            final(self).start == old(self).start,
            final(self).tokens@ == old(self).tokens@,
            final(self).src@ == old(self).src@,
            final(self).end == old(self).end,
            final(self).recipe_body == old(self).recipe_body,
            final(self).interpolation_stack@ == old(self).interpolation_stack@,
    {
        let line = self.token_start.line;
        self.open_delimiters.push((delimiter, line));
    }

    /// Pop a delimiter from the open delimiter stack and error if it is not
    /// the one `close` closes.
    fn close_delimiter(&mut self, close: Delimiter) -> (r: Result<(), CompileError>)
        requires
            old(self).wf(),
        ensures
            final(self).wf(),
            r is Ok <==> closes_top(old(self).open_delimiters@, close),
            final(self).indentation@ == old(self).indentation@,
            final(self).recipe_body_pending == old(self).recipe_body_pending,
            final(self).open_delimiters@ == if old(self).open_delimiters@.len() > 0 {
                old(self).open_delimiters@.drop_last()
            } else {
                old(self).open_delimiters@
            },
            r matches Err(e) ==> e.kind == if old(self).open_delimiters@.len() > 0 {
                CompileErrorKind::MismatchedClosingDelimiter {
                    open: old(self).open_delimiters@.last().0,
                    close,
                    open_line: old(self).open_delimiters@.last().1,
                }
            } else {
                CompileErrorKind::UnexpectedClosingDelimiter { close }
            },
            final(self).start == old(self).start,
            final(self).tokens@ == old(self).tokens@,
            final(self).src@ == old(self).src@,
            final(self).end == old(self).end,
            final(self).recipe_body == old(self).recipe_body,
            final(self).interpolation_stack@ == old(self).interpolation_stack@,
    {
        match self.open_delimiters.pop() {
            Some((open, open_line)) => {
                if open == close {
                    Ok(())
                } else {
                    Err(self.error(CompileErrorKind::MismatchedClosingDelimiter { open, close, open_line }))
                }
            },
            None => Err(self.error(CompileErrorKind::UnexpectedClosingDelimiter { close })),
        }
    }

    /// Lex a two-character digraph.
    fn lex_digraph(&mut self, left: char, right: char, token: TokenKind) -> (r: Result<
        (),
        CompileError,
    >)
        requires
            old(self).wf(),
            old(self).next_spec() == Some(left),
            old(self).start == old(self).end,
            token != TokenKind::Unspecified,
            depth_change(token) == 0,
            lexeme_fits(token, seq![left, right]),
        ensures
            r is Ok ==> final(self).stepped(old(self)) && final(self).end > old(self).end
                && final(self).recipe_body == old(self).recipe_body && final(self).start
                == final(self).end,
            r is Ok <==> (old(self).end + 1 < old(self).src@.len() && old(self).src@[old(self).end
                + 1] == right),
            r is Ok ==> final(self).emitted(old(self), token),
            r is Ok ==> final(self).same_layout(old(self)) && final(self).end == old(self).end + 2,
    {
        self.advance_presumed(left);
        if self.accepted(right) {
            assert(self.src@.subrange(self.start as int, self.end as int) =~= seq![left, right]);
            self.token(token);
            Ok(())
        } else {
            // Emit an unspecified token to consume the current character,
            self.token(TokenKind::Unspecified);
            if self.at_eof() {
                return Err(self.error(CompileErrorKind::UnexpectedEndOfToken { expected: vec![right] }));
            }
            // …and advance past another character,
            self.advance();
            // …so that the error we produce highlights the unexpected character.
            Err(self.error(CompileErrorKind::UnexpectedCharacter { expected: vec![right] }))
        }
    }

    /// Lex a token starting with ':'.
    fn lex_colon(&mut self) -> (r: Result<(), CompileError>)
        requires
            old(self).wf(),
            old(self).next_spec() == Some(':'),
            old(self).start == old(self).end,
        ensures
            r is Ok,
            final(self).emitted(old(self), colon_kind(old(self).src@, old(self).end as int)),
            final(self).start == final(self).end,
            final(self).stepped(old(self)),
            final(self).end > old(self).end,
            final(self).recipe_body == old(self).recipe_body,
            colon_kind(old(self).src@, old(self).end as int) != TokenKind::Colon ==> final(self).same_layout(old(self)) && final(self).end == old(self).end + 2,
            colon_kind(old(self).src@, old(self).end as int) == TokenKind::Colon ==> {
                &&& final(self).end == old(self).end + 1
                &&& final(self).recipe_body_pending
                &&& final(self).indentation@ == old(self).indentation@
                &&& final(self).open_delimiters@ == old(self).open_delimiters@
                &&& final(self).interpolation_stack@ == old(self).interpolation_stack@
            },
    {
        self.advance_presumed(':');
        if self.accepted('=') {
            assert(self.src@.subrange(self.start as int, self.end as int) =~= seq![':', '=']);
            self.token(TokenKind::ColonEquals);
        } else if self.accepted(':') {
            assert(self.src@.subrange(self.start as int, self.end as int) =~= seq![':', ':']);
            self.token(TokenKind::ColonColon);
        } else {
            assert(self.src@.subrange(self.start as int, self.end as int) =~= seq![':']);
            self.token(TokenKind::Colon);
            self.recipe_body_pending = true;
        }
        Ok(())
    }

    /// Advance over spaces and tabs.
    fn skip_blanks(&mut self)
        requires
            old(self).wf(),
        ensures
            final(self).wf(),
            final(self).end >= old(self).end,
            final(self).src@ == old(self).src@,
            final(self).start == old(self).start,
            final(self).tokens@ == old(self).tokens@,
            final(self).indentation@ == old(self).indentation@,
            final(self).interpolation_stack@ == old(self).interpolation_stack@,
            final(self).open_delimiters@ == old(self).open_delimiters@,
            final(self).recipe_body == old(self).recipe_body,
            final(self).recipe_body_pending == old(self).recipe_body_pending,
            forall|j: int| old(self).end <= j < final(self).end ==> is_blank(#[trigger] final(self).src@[j]),
            !(final(self).next_spec() matches Some(c) && is_blank(c)),
    {
        while self.next_is_whitespace()
            invariant
                self.wf(),
                self.end >= old(self).end,
                self.src@ == old(self).src@,
                self.start == old(self).start,
                self.tokens@ == old(self).tokens@,
                self.indentation@ == old(self).indentation@,
                self.interpolation_stack@ == old(self).interpolation_stack@,
                self.open_delimiters@ == old(self).open_delimiters@,
                self.recipe_body == old(self).recipe_body,
                self.recipe_body_pending == old(self).recipe_body_pending,
                forall|j: int| old(self).end <= j < self.end ==> is_blank(#[trigger] self.src@[j]),
            decreases self.src.len() - self.end,
        {
            self.advance();
        }
    }

    /// Lex a token starting with a '\' escape.
    fn lex_escape(&mut self) -> (r: Result<(), CompileError>)
        requires
            old(self).wf(),
            old(self).next_spec() == Some('\\'),
            old(self).start == old(self).end,
        ensures
            r is Ok ==> final(self).stepped(old(self)) && final(self).end > old(self).end
                && final(self).recipe_body == old(self).recipe_body && final(self).settled(),
            r is Ok <==> escape_ok(old(self).src@, old(self).end as int),
            r is Ok ==> if old(self).end + 1 >= old(self).src@.len() {
                final(self).tokens@ == old(self).tokens@
            } else {
                final(self).emitted(old(self), TokenKind::Whitespace)
            },
            r is Ok && old(self).end + 1 < old(self).src@.len() ==> final(self).same_layout(old(self))
                && final(self).start == final(self).end && final(self).end == escape_end(
                old(self).src@,
                old(self).end as int,
            ),
    {
        self.advance_presumed('\\');
        // Treat newline escaped with \ as whitespace
        if self.accepted('\n') {
            let ghost after_break = self.end as int;
            self.skip_blanks();
            proof {
                lemma_blanks_end(self.src@, after_break, self.end as int);
                assert(self.src@[old(self).end + 1] == '\n');
                let t = self.src@.subrange(self.start as int, self.end as int);
                assert(t.subrange(1, 2) =~= seq!['\n']);
                assert(is_line_break(t.subrange(1, 2)));
                assert(all_blank(t.subrange(2, t.len() as int)));
                assert(t[0] == '\\');
            }
            self.token(TokenKind::Whitespace);
        } else if self.accepted('\r') {
            if !self.accepted('\n') {
                return Err(self.error(CompileErrorKind::UnpairedCarriageReturn));
            }
            let ghost after_break = self.end as int;
            self.skip_blanks();
            proof {
                lemma_blanks_end(self.src@, after_break, self.end as int);
                assert(self.src@[old(self).end + 1] == '\r');
                let t = self.src@.subrange(self.start as int, self.end as int);
                assert(t.subrange(1, 3) =~= seq!['\r', '\n']);
                assert(is_line_break(t.subrange(1, 3)));
                assert(all_blank(t.subrange(3, t.len() as int)));
                assert(t[0] == '\\');
            }
            self.token(TokenKind::Whitespace);
        } else if let Some(character) = self.next() {
            return Err(self.error(CompileErrorKind::InvalidEscapeSequence { character }));
        } else {
            assert(self.src@.subrange(self.start as int, self.end as int) =~= seq!['\\']);
        }
        Ok(())
    }

    /// Lex a carriage return and line feed.
    fn lex_eol(&mut self) -> (r: Result<(), CompileError>)
        requires
            old(self).wf(),
            old(self).next_spec() == Some('\n') || old(self).next_spec() == Some('\r'),
            old(self).start == old(self).end,
        ensures
            r is Ok ==> final(self).stepped(old(self)) && final(self).end > old(self).end
                && final(self).recipe_body == old(self).recipe_body && final(self).start
                == final(self).end,
            r is Ok <==> eol_ok(old(self).src@, old(self).end as int),
            r is Ok && old(self).next_spec() == Some('\n') ==> final(self).end == old(self).end + 1,
            r is Ok && old(self).next_spec() == Some('\r') ==> final(self).end == old(self).end + 2,
            r is Ok ==> final(self).same_layout(old(self)),
            r is Ok ==> final(self).emitted(
                old(self),
                if old(self).open_delimiters@.len() > 0 {
                    TokenKind::Whitespace
                } else {
                    TokenKind::Eol
                },
            ),
    {
        if self.accepted('\r') {
            if !self.accepted('\n') {
                return Err(self.error(CompileErrorKind::UnpairedCarriageReturn));
            }
            assert(self.src@.subrange(self.start as int, self.end as int) =~= seq!['\r', '\n']);
        } else {
            self.advance_presumed('\n');
            assert(self.src@.subrange(self.start as int, self.end as int) =~= seq!['\n']);
        }
        // Emit an eol if there are no open delimiters, otherwise emit a
        // whitespace token.
        if self.open_delimiters() {
            self.token(TokenKind::Whitespace);
        } else {
            self.token(TokenKind::Eol);
        }
        Ok(())
    }

    /// Lex name: [a-zA-Z_][a-zA-Z0-9_-]*
    fn lex_identifier(&mut self) -> (r: Result<(), CompileError>)
        requires
            old(self).wf(),
            old(self).end < old(self).src.len(),
            old(self).start == old(self).end,
            spec_is_identifier_start(old(self).src@[old(self).end as int]),
        ensures
            r is Ok,
            final(self).emitted(old(self), TokenKind::Identifier),
            final(self).end == identifier_end(old(self).src@, old(self).end + 1),
            final(self).same_layout(old(self)),
            final(self).stepped(old(self)),
            final(self).end > old(self).end,
            final(self).recipe_body == old(self).recipe_body,
            final(self).start == final(self).end,
    {
        self.advance();
        while self.end < self.src.len() && Self::is_identifier_continue(self.src[self.end])
            invariant
                self.stepped(old(self)),
                self.end > old(self).end,
                self.recipe_body == old(self).recipe_body,
                self.same_layout(old(self)),
                self.start == old(self).end,
                self.tokens@ == old(self).tokens@,
                spec_is_identifier_start(self.src@[self.start as int]),
                forall|j: int|
                    self.start < j < self.end ==> spec_is_identifier_continue(#[trigger] self.src@[j]),
            decreases self.src.len() - self.end,
        {
            self.advance();
        }
        proof {
            let t = self.src@.subrange(self.start as int, self.end as int);
            assert forall|i: int| 1 <= i < t.len() implies spec_is_identifier_continue(#[trigger] t[i]) by {
                assert(t[i] == self.src@[self.start + i]);
            }
            lemma_identifier_end(self.src@, self.start + 1, self.end as int);
        }
        self.token(TokenKind::Identifier);
        Ok(())
    }

    /// Lex comment: #[^\r\n]
    fn lex_comment(&mut self) -> (r: Result<(), CompileError>)
        requires
            old(self).wf(),
            old(self).next_spec() == Some('#'),
            old(self).start == old(self).end,
        ensures
            r is Ok,
            final(self).emitted(old(self), TokenKind::Comment),
            final(self).stepped(old(self)),
            final(self).end > old(self).end,
            final(self).recipe_body == old(self).recipe_body,
            final(self).start == final(self).end,
            final(self).end == comment_end(old(self).src@, old(self).end + 1),
            final(self).same_layout(old(self)),
    {
        self.advance_presumed('#');
        while !self.at_eol_or_eof()
            invariant
                self.stepped(old(self)),
                self.end > old(self).end,
                self.recipe_body == old(self).recipe_body,
                self.start == old(self).end,
                self.tokens@ == old(self).tokens@,
                self.src@[self.start as int] == '#',
                forall|j: int| self.start < j < self.end ==> #[trigger] self.src@[j] != '\n',
                self.same_layout(old(self)),
                comment_end(self.src@, self.end as int) == comment_end(self.src@, old(self).end + 1),
            decreases self.src.len() - self.end,
        {
            proof {
                reveal_strlit("\r\n");
                if self.end + 1 < self.src.len() && self.src@[self.end as int] == '\r'
                    && self.src@[self.end + 1] == '\n' {
                    assert(self.src@.subrange(self.end as int, self.end + 2) =~= "\r\n"@);
                }
            }
            self.advance();
        }
        proof {
            reveal_strlit("\r\n");
            if occurs_at(self.src@, "\r\n"@, self.end as int) {
                assert(self.src@.subrange(self.end as int, self.end + 2)[0] == '\r');
                assert(self.src@.subrange(self.end as int, self.end + 2)[1] == '\n');
            }
        }
        proof {
            let t = self.src@.subrange(self.start as int, self.end as int);
            assert forall|i: int| 0 <= i < t.len() implies t[i] != '\n' by {
                assert(t[i] == self.src@[self.start + i]);
            }
        }
        self.token(TokenKind::Comment);
        Ok(())
    }

    /// Lex whitespace: [ \t]+
    fn lex_whitespace(&mut self) -> (r: Result<(), CompileError>)
        requires
            old(self).wf(),
            old(self).next_spec() matches Some(c) && is_blank(c),
            old(self).start == old(self).end,
        ensures
            r is Ok,
            final(self).emitted(old(self), TokenKind::Whitespace),
            final(self).end == blanks_end(old(self).src@, old(self).end as int),
            final(self).same_layout(old(self)),
            final(self).stepped(old(self)),
            final(self).end > old(self).end,
            final(self).recipe_body == old(self).recipe_body,
            final(self).start == final(self).end,
    {
        self.skip_blanks();
        proof {
            let t = self.src@.subrange(self.start as int, self.end as int);
            assert forall|i: int| 0 <= i < t.len() implies is_blank(#[trigger] t[i]) by {
                assert(t[i] == self.src@[self.start + i]);
            }
            lemma_blanks_end(self.src@, self.start as int, self.end as int);
        }
        self.token(TokenKind::Whitespace);
        Ok(())
    }

    /// Advance over the characters of `text`, which the rest of the text
    /// begins with.
    fn presume_chars(&mut self, text: &Vec<char>)
        requires
            old(self).wf(),
            occurs_at(old(self).src@, text@, old(self).end as int),
        ensures
            final(self).wf(),
            final(self).end == old(self).end + text.len(),
            final(self).src@ == old(self).src@,
            final(self).start == old(self).start,
            final(self).tokens@ == old(self).tokens@,
            final(self).indentation@ == old(self).indentation@,
            final(self).interpolation_stack@ == old(self).interpolation_stack@,
            final(self).open_delimiters@ == old(self).open_delimiters@,
            final(self).recipe_body == old(self).recipe_body,
            final(self).recipe_body_pending == old(self).recipe_body_pending,
    {
        self.skip(text.len());
    }

    /// Lex a backtick, cooked string, or raw string.
    ///
    /// Backtick:      `[^`]*`
    /// Cooked string: "[^"]*" # also processes escape sequences
    /// Raw string:    '[^']*'
    fn lex_string(&mut self) -> (r: Result<(), CompileError>)
        requires
            old(self).wf(),
            old(self).end < old(self).src.len(),
            old(self).start == old(self).end,
        ensures
            r is Ok ==> final(self).stepped(old(self)) && final(self).end > old(self).end
                && final(self).recipe_body == old(self).recipe_body && final(self).start
                == final(self).end,
            r is Ok <==> string_ok(old(self).src@, old(self).end as int),
            r is Ok ==> final(self).emitted(old(self), string_kind_at(old(self).src@, old(self).end as int)),
            r is Ok ==> final(self).same_layout(old(self)) && final(self).end == string_end(
                old(self).src@,
                old(self).end as int,
            ),
    {
        let found = StringKind::from_token_start(self.src.as_slice(), self.end);
        let kind = match found {
            Some(kind) => kind,
            None => {
                self.advance();
                return Err(self.internal_error("Lexer::lex_string: invalid string start"));
            },
        };
        let delimiter = kind.delimiter_chars();
        proof {
            assert(found == crate::string_kind::spec_kind_at(self.src@, self.end as int));
            assert(occurs_at(self.src@, spec_delimiter(kind), self.end as int));
        }
        self.presume_chars(&delimiter);
        let escapes = kind.processes_escape_sequences();
        let mut escape = false;
        loop
            invariant
                string_ok(self.src@, old(self).end as int) == string_closes(
                    self.src@,
                    self.end as int,
                    delimiter@,
                    escapes,
                    escape,
                ),

                self.stepped(old(self)),
                self.end >= old(self).end + delimiter@.len(),
                self.recipe_body == old(self).recipe_body,
                delimiter@ == spec_delimiter(kind),
                self.start == old(self).end,
                self.tokens@ == old(self).tokens@,
                occurs_at(self.src@, delimiter@, self.start as int),
                self.same_layout(old(self)),
                found == Some(kind),
                escapes == (kind.delimiter == StringDelimiter::QuoteDouble),
                string_close_at(
                    self.src@,
                    old(self).end + delimiter@.len(),
                    delimiter@,
                    escapes,
                    false,
                ) == string_close_at(self.src@, self.end as int, delimiter@, escapes, escape),
            ensures
                self.same_layout(old(self)),
                string_close_at(
                    self.src@,
                    old(self).end + delimiter@.len(),
                    delimiter@,
                    escapes,
                    false,
                ) == self.end,
                self.stepped(old(self)),
                self.end >= old(self).end + delimiter@.len(),
                self.recipe_body == old(self).recipe_body,
                self.start == old(self).end,
                self.tokens@ == old(self).tokens@,
                occurs_at(self.src@, delimiter@, self.start as int),
                occurs_at(self.src@, delimiter@, self.end as int),
                string_ok(self.src@, old(self).end as int),
            decreases self.src.len() - self.end,
        {
            if self.next().is_none() {
                return Err(self.error(kind.unterminated_error_kind()));
            } else if escapes && self.next_is('\\') && !escape {
                escape = true;
            } else if occurs_at_exec(self.src.as_slice(), delimiter.as_slice(), self.end) && !escape {
                break;
            } else {
                escape = false;
            }
            self.advance();
        }
        let ghost close = self.end as int;
        self.presume_chars(&delimiter);
        proof {
            let t = self.src@.subrange(self.start as int, self.end as int);
            let d = spec_delimiter(kind);
            assert(t.subrange(0, d.len() as int) =~= self.src@.subrange(
                self.start as int,
                self.start + d.len(),
            ));
            assert(t.subrange(t.len() - d.len(), t.len() as int) =~= self.src@.subrange(
                close,
                close + d.len(),
            ));
        }
        let token_kind = kind.token_kind();
        assert(string_token_kind(kind) == token_kind);
        self.token(token_kind);
        Ok(())
    }

    /// Lex a dedent: close the current indentation level.
    fn lex_dedent(&mut self) -> (r: Result<(), CompileError>)
        requires
            old(self).wf(),
            old(self).indentation.len() >= 2,
        ensures
            r is Ok ==> {
                &&& final(self).wf()
                &&& final(self).src@ == old(self).src@
                &&& final(self).end == old(self).end
                &&& final(self).start == final(self).end
                &&& (old(self).clean() ==> final(self).clean())
                &&& final(self).indentation@ == old(self).indentation@.drop_last()
                &&& final(self).interpolation_stack@ == old(self).interpolation_stack@
            },
            r is Ok <==> old(self).start == old(self).end,
            r is Ok ==> final(self).emitted(old(self), TokenKind::Dedent),
            r is Ok ==> final(self).open_delimiters@ == old(self).open_delimiters@ && !final(self).recipe_body && !final(self).recipe_body_pending,
    {
        proof {
            if self.start < self.end {
                lemma_prefix_bytes_strict(self.src@, self.start as int, self.end as int);
            }
        }
        if self.current_token_length() != 0 {
            return Err(self.internal_error("Lexer::lex_dedent called with a token in progress"));
        }
        proof {
            if self.start < self.end {
                lemma_prefix_bytes_strict(self.src@, self.start as int, self.end as int);
            }
            assert(self.src@.subrange(self.start as int, self.end as int) =~= Seq::<char>::empty());
        }
        self.indentation.pop();
        self.token(TokenKind::Dedent);
        self.recipe_body_pending = false;
        self.recipe_body = false;
        Ok(())
    }

    /// Whether some level of the indentation stack is `src[a..b]`.
    fn indentation_contains(&self, a: usize, b: usize) -> (r: bool)
        requires
            a <= b <= self.src.len(),
        ensures
            r == exists|k: int|
                0 <= k < self.indentation.len() && #[trigger] self.indentation@[k]@ == self.src@.subrange(
                    a as int,
                    b as int,
                ),
    {
        let mut k: usize = 0;
        while k < self.indentation.len()
            invariant
                a <= b <= self.src.len(),
                k <= self.indentation.len(),
                forall|m: int|
                    0 <= m < k ==> #[trigger] self.indentation@[m]@ != self.src@.subrange(a as int, b as int),
            decreases self.indentation.len() - k,
        {
            if range_equals(&self.src, a, b, &self.indentation[k]) {
                return true;
            }
            k += 1;
        }
        false
    }

    /// Handle blank lines and indentation.
    #[verifier::spinoff_prover]
    #[verifier::rlimit(90)]
    fn lex_line_start(&mut self) -> (r: Result<(), CompileError>)
        requires
            old(self).wf(),
            old(self).settled(),
        ensures
            r is Ok ==> final(self).stepped(old(self)) && final(self).settled(),
            r is Ok <==> line_start_ok(
                old(self).src@,
                old(self).end as int,
                level_views(old(self).indentation@),
                old(self).recipe_body,
            ),
            r is Ok ==> final(self).end == line_start_end(
                old(self).src@,
                old(self).end as int,
                level_views(old(self).indentation@),
                old(self).recipe_body,
            ),
            blanks_end(old(self).src@, old(self).end as int) == old(self).end
                && old(self).indentation@.len() == 1 ==> r is Ok && *final(self) == *old(self),
            r matches Err(e) ==> line_start_error(
                old(self).src@,
                old(self).end as int,
                level_views(old(self).indentation@),
                old(self).recipe_body,
                e,
            ),
            r is Ok ==> token_kinds(final(self).tokens@) == token_kinds(old(self).tokens@)
                + line_start_kinds(
                old(self).src@,
                old(self).end as int,
                level_views(old(self).indentation@),
                old(self).recipe_body,
                old(self).open_delimiters@.len() > 0,
            ),
            r is Ok ==> level_views(final(self).indentation@) == line_start_levels(
                old(self).src@,
                old(self).end as int,
                level_views(old(self).indentation@),
                old(self).recipe_body,
                old(self).open_delimiters@.len() > 0,
            ),
            r is Ok ==> final(self).open_delimiters@ == old(self).open_delimiters@
                && final(self).interpolation_stack@ == old(self).interpolation_stack@,
            r is Ok && old(self).start == old(self).end ==> final(self).start == final(self).end,
            r is Ok ==> (final(self).recipe_body, final(self).recipe_body_pending) == line_start_flags(
                old(self).src@,
                old(self).end as int,
                level_views(old(self).indentation@),
                old(self).recipe_body,
                old(self).recipe_body_pending,
                old(self).open_delimiters@.len() > 0,
            ),
    {
        proof {
            lemma_level_views(self.indentation@);
        }
        let ghost kinds = line_start_kinds(
            self.src@,
            self.end as int,
            level_views(self.indentation@),
            self.recipe_body,
            self.open_delimiters@.len() > 0,
        );
        let ws_start = self.end;
        let mut nonblank = self.end;
        while nonblank < self.src.len() && (self.src[nonblank] == ' ' || self.src[nonblank] == '\t')
            invariant
                self.wf(),
                ws_start == self.end,
                self.end <= nonblank <= self.src.len(),
                forall|j: int| self.end <= j < nonblank ==> is_blank(#[trigger] self.src@[j]),
            decreases self.src.len() - nonblank,
        {
            nonblank += 1;
        }
        let ws_end = nonblank;
        let ghost whitespace = self.src@.subrange(ws_start as int, ws_end as int);
        proof {
            lemma_blanks_end(self.src@, ws_start as int, ws_end as int);
            assert(blanks_end(self.src@, ws_start as int) == ws_end);
            assert(self.indentation@.last()@ == self.indentation@[self.indentation.len() - 1]@);
        }
        // The body whitespace is the part of the whitespace before the first
        // of its first characters (as many as the current indentation has),
        // which is always empty.
        let body_end = ws_start;
        let top_index = self.indentation.len() - 1;
        let top = copy_vec(&self.indentation[top_index]);
        let spaces = range_contains(&self.src, ws_start, ws_end, ' ');
        let tabs = range_contains(&self.src, ws_start, ws_end, '\t');
        let body_spaces = range_contains(&self.src, ws_start, body_end, ' ');
        let body_tabs = range_contains(&self.src, ws_start, body_end, '\t');
        let blank = ws_end == self.src.len() || self.src[ws_end] == '\n' || (self.src[ws_end] == '\r'
            && ws_end + 1 < self.src.len() && self.src[ws_end + 1] == '\n');
        let ws_len = ws_end - ws_start;
        let body_len = body_end - ws_start;
        let line_start = if blank {
            LineStart::Blank
        } else if range_equals(&self.src, ws_start, ws_end, &top) {
            LineStart::Continue
        } else if self.indentation_contains(ws_start, ws_end) {
            LineStart::Decrease
        } else if self.recipe_body && range_starts_with(&self.src, ws_start, ws_end, &top) {
            LineStart::Continue
        } else if self.recipe_body && body_spaces && body_tabs {
            LineStart::Mixed { from: ws_start, to: body_end }
        } else if !self.recipe_body && spaces && tabs {
            LineStart::Mixed { from: ws_start, to: ws_end }
        } else if ws_len < top.len() {
            LineStart::Inconsistent
        } else if self.recipe_body && body_len >= top.len() && !range_starts_with(
            &self.src,
            ws_start,
            body_end,
            &top,
        ) {
            LineStart::Inconsistent
        } else if ws_len >= top.len() && !range_starts_with(&self.src, ws_start, ws_end, &top) {
            LineStart::Inconsistent
        } else {
            LineStart::Increase
        };
        proof {
            assert(line_start is Continue ==> top@.len() <= ws_len);
            assert(line_start is Decrease ==> exists|k: int|
                0 <= k < self.indentation.len() && #[trigger] self.indentation@[k]@ == whitespace);
            if line_start is Increase {
                assert(self.indentation@[0]@ != whitespace);
                if ws_len == 0 {
                    assert(whitespace =~= self.indentation@[0]@);
                }
                assert(ws_len > 0);
            }
        }
        match line_start {
            LineStart::Blank => {
                proof {
                    assert(blank_line_at(old(self).src@, ws_start as int));
                    assert(kinds == if ws_len > 0 {
                        seq![TokenKind::Whitespace]
                    } else {
                        Seq::<TokenKind>::empty()
                    });
                    assert(token_kinds(old(self).tokens@) + Seq::<TokenKind>::empty() =~= token_kinds(
                        old(self).tokens@,
                    ));
                    assert(token_kinds(old(self).tokens@) + seq![TokenKind::Whitespace] =~= token_kinds(
                        old(self).tokens@,
                    ).push(TokenKind::Whitespace));
                }
                if ws_len > 0 {
                    self.skip_blanks();
                    proof {
                        let t = self.src@.subrange(self.start as int, self.end as int);
                        assert forall|i: int| 0 <= i < t.len() implies is_blank(#[trigger] t[i]) by {
                            assert(t[i] == self.src@[self.start + i]);
                        }
                    }
                    let ghost before = self.tokens@;
                    self.token(TokenKind::Whitespace);
                    proof {
                        lemma_kinds_push(before, self.tokens@.last());
                    }
                }
                Ok(())
            },
            LineStart::Continue => {
                proof {
                    assert(!blank_line_at(old(self).src@, ws_start as int));
                    assert(kinds == if top@.len() > 0 {
                        seq![TokenKind::Whitespace]
                    } else {
                        Seq::<TokenKind>::empty()
                    });
                    assert(token_kinds(old(self).tokens@) + Seq::<TokenKind>::empty() =~= token_kinds(
                        old(self).tokens@,
                    ));
                    assert(token_kinds(old(self).tokens@) + seq![TokenKind::Whitespace] =~= token_kinds(
                        old(self).tokens@,
                    ).push(TokenKind::Whitespace));
                }
                if top.len() > 0 {
                    self.skip(top.len());
                    proof {
                        let t = self.src@.subrange(self.start as int, self.end as int);
                        assert forall|i: int| 0 <= i < t.len() implies is_blank(#[trigger] t[i]) by {
                            assert(t[i] == self.src@[self.start + i]);
                        }
                    }
                    let ghost before = self.tokens@;
                    self.token(TokenKind::Whitespace);
                    proof {
                        lemma_kinds_push(before, self.tokens@.last());
                    }
                }
                Ok(())
            },
            LineStart::Decrease => {
                proof {
                    assert(!blank_line_at(old(self).src@, ws_start as int));
                    assert(kinds == Seq::new(
                        levels_above(level_views(old(self).indentation@), whitespace),
                        |_k: int| TokenKind::Dedent,
                    ) + if ws_len > 0 {
                        seq![TokenKind::Whitespace]
                    } else {
                        Seq::<TokenKind>::empty()
                    });
                    assert(token_kinds(self.tokens@) + Seq::new(
                        levels_above(level_views(self.indentation@), whitespace),
                        |_k: int| TokenKind::Dedent,
                    ) =~= token_kinds(old(self).tokens@) + Seq::new(
                        levels_above(level_views(old(self).indentation@), whitespace),
                        |_k: int| TokenKind::Dedent,
                    ));
                }
                while !range_equals(&self.src, ws_start, ws_end, &self.indentation[self.indentation.len() - 1])
                    invariant
                        self.stepped(old(self)),
                        self.end == ws_start,
                        self.start == self.end,
                        ws_start <= ws_end <= self.src.len(),
                        whitespace == self.src@.subrange(ws_start as int, ws_end as int),
                        exists|k: int|
                            0 <= k < self.indentation.len() && #[trigger] self.indentation@[k]@
                                == whitespace,
                        level_views(self.indentation@) == level_views(old(self).indentation@).take(
                            self.indentation@.len() as int,
                        ),
                        self.indentation@.len() <= old(self).indentation@.len(),
                        self.indentation@.len() + levels_above(
                            level_views(old(self).indentation@),
                            whitespace,
                        ) == old(self).indentation@.len() + levels_above(
                            level_views(self.indentation@),
                            whitespace,
                        ),
                        self.open_delimiters@ == old(self).open_delimiters@,
                        self.interpolation_stack@ == old(self).interpolation_stack@,
                        self.indentation@.len() < old(self).indentation@.len() ==> !self.recipe_body
                            && !self.recipe_body_pending,
                        self.indentation@.len() == old(self).indentation@.len() ==> self.recipe_body
                            == old(self).recipe_body && self.recipe_body_pending
                            == old(self).recipe_body_pending,
                        token_kinds(self.tokens@) + Seq::new(
                            levels_above(level_views(self.indentation@), whitespace),
                            |_k: int| TokenKind::Dedent,
                        ) == token_kinds(old(self).tokens@) + Seq::new(
                            levels_above(level_views(old(self).indentation@), whitespace),
                            |_k: int| TokenKind::Dedent,
                        ),
                    decreases self.indentation.len(),
                {
                    let ghost before_tokens = self.tokens@;
                    let ghost before_levels = self.indentation@;
                    let ghost k = choose|k: int|
                        0 <= k < self.indentation.len() && #[trigger] self.indentation@[k]@
                            == whitespace;
                    assert(k < self.indentation.len() - 1);
                    self.lex_dedent()?;
                    assert(self.indentation@[k]@ == whitespace);
                    proof {
                        let n = levels_above(level_views(self.indentation@), whitespace);
                        assert(self.indentation@ == before_levels.drop_last());
                        lemma_level_views(before_levels);
                        lemma_level_views(self.indentation@);
                        assert(levels_above(level_views(before_levels), whitespace) == n + 1);
                        assert(level_views(self.indentation@) =~= level_views(old(self).indentation@).take(
                            self.indentation@.len() as int,
                        ));
                        lemma_kinds_push(before_tokens, self.tokens@.last());
                        assert(token_kinds(self.tokens@) + Seq::new(n, |_k: int| TokenKind::Dedent)
                            =~= token_kinds(before_tokens) + Seq::new(
                            n + 1,
                            |_k: int| TokenKind::Dedent,
                        ));
                    }
                }
                proof {
                    lemma_level_views(self.indentation@);
                    assert(levels_above(level_views(self.indentation@), whitespace) == 0);
                    assert(level_views(self.indentation@) == level_views(old(self).indentation@).take(
                        old(self).indentation@.len() - levels_above(
                            level_views(old(self).indentation@),
                            whitespace,
                        ),
                    ));
                    assert(token_kinds(self.tokens@) =~= token_kinds(self.tokens@) + Seq::new(
                        0,
                        |_k: int| TokenKind::Dedent,
                    ));
                    assert(token_kinds(self.tokens@) + Seq::<TokenKind>::empty() =~= token_kinds(
                        self.tokens@,
                    ));
                    assert(token_kinds(old(self).tokens@) + kinds =~= token_kinds(self.tokens@) + (if ws_len > 0 {
                        seq![TokenKind::Whitespace]
                    } else {
                        Seq::<TokenKind>::empty()
                    }));
                }
                if ws_len > 0 {
                    self.skip_blanks();
                    proof {
                        let t = self.src@.subrange(self.start as int, self.end as int);
                        assert forall|i: int| 0 <= i < t.len() implies is_blank(#[trigger] t[i]) by {
                            assert(t[i] == self.src@[self.start + i]);
                        }
                    }
                    let ghost before = self.tokens@;
                    self.token(TokenKind::Whitespace);
                    proof {
                        lemma_kinds_push(before, self.tokens@.last());
                        assert(token_kinds(before) + seq![TokenKind::Whitespace] =~= token_kinds(
                            before,
                        ).push(TokenKind::Whitespace));
                    }
                }
                Ok(())
            },
            LineStart::Mixed { from, to } => {
                assert(!self.recipe_body && from == ws_start && to == ws_end);
                assert(self.start == self.end);
                let whitespace = string_from_chars(self.src.as_slice(), from, to);
                self.skip(ws_len);
                let e = self.error(CompileErrorKind::MixedLeadingWhitespace { whitespace });
                proof {
                    assert(!(old(self).recipe_body && top@.is_prefix_of(whitespace@)));
                    assert(old(self).indentation@.last()@ == top@);
                    assert(whitespace@.contains(' ') && whitespace@.contains('\t'));
                }
                Err(e)
            },
            LineStart::Inconsistent => {
                assert(self.start == self.end);
                let found = string_from_chars(self.src.as_slice(), ws_start, ws_end);
                self.skip(ws_len);
                let expected = string_from_chars(top.as_slice(), 0, top.len());
                let e = self.error(CompileErrorKind::InconsistentLeadingWhitespace { expected, found });
                proof {
                    assert(expected@ =~= top@);
                    assert(old(self).indentation@.last()@ == top@);
                    assert(!(!old(self).recipe_body && found@.contains(' ') && found@.contains('\t')));
                }
                Err(e)
            },
            LineStart::Increase => {
                proof {
                    assert(!blank_line_at(old(self).src@, ws_start as int));
                    assert(kinds == if old(self).open_delimiters@.len() > 0 {
                        seq![TokenKind::Whitespace]
                    } else {
                        seq![TokenKind::Indent]
                    });
                }
                let ghost before = self.tokens@;
                self.skip_blanks();
                proof {
                    let t = self.src@.subrange(self.start as int, self.end as int);
                    assert forall|i: int| 0 <= i < t.len() implies is_blank(#[trigger] t[i]) by {
                        assert(t[i] == self.src@[self.start + i]);
                    }
                }
                if self.open_delimiters() {
                    self.token(TokenKind::Whitespace);
                } else {
                    let indentation = copy_range(&self.src, self.start, self.end);
                    let ghost levels_before = self.indentation@;
                    self.indentation.push(indentation);
                    proof {
                        assert(indentation@ == whitespace);
                        assert(level_views(self.indentation@) =~= level_views(levels_before).push(
                            whitespace,
                        ));
                    }
                    self.token(TokenKind::Indent);
                    if self.recipe_body_pending {
                        self.recipe_body = true;
                    }
                }
                proof {
                    lemma_kinds_push(before, self.tokens@.last());
                    assert(token_kinds(before) + kinds =~= token_kinds(before).push(self.tokens@.last().kind));
                }
                Ok(())
            },
        }
    }

    /// Lex a token beginning with `start` outside of a recipe body.
    fn lex_normal(&mut self, start: char) -> (r: Result<(), CompileError>)
        requires
            old(self).wf(),
            old(self).next_spec() == Some(start),
            old(self).start == old(self).end,
        ensures
            r is Ok ==> final(self).stepped(old(self)) && final(self).end > old(self).end
                && final(self).settled(),
            r is Ok <==> normal_ok(old(self).src@, old(self).end as int, old(self).open_delimiters@),
            r is Ok && plain_char(start) ==> final(self).same_layout(old(self)) && final(self).start
                == final(self).end && final(self).end == plain_step_end(
                old(self).src@,
                old(self).end as int,
            ),
            r is Ok && !final_backslash(old(self).src@, old(self).end as int) ==> {
                &&& final(self).end == normal_end(old(self).src@, old(self).end as int)
                &&& final(self).start == final(self).end
                &&& final(self).indentation@ == old(self).indentation@
                &&& final(self).open_delimiters@ == delimiters_after(
                    old(self).src@,
                    old(self).end as int,
                    old(self).open_delimiters@,
                )
                &&& final(self).interpolation_stack@ == old(self).interpolation_stack@
                &&& final(self).recipe_body == old(self).recipe_body
                &&& final(self).recipe_body_pending == (old(self).recipe_body_pending || (start
                    == ':' && colon_kind(old(self).src@, old(self).end as int) == TokenKind::Colon))
            },
            r is Ok && start == ':' && colon_kind(old(self).src@, old(self).end as int)
                == TokenKind::Colon ==> {
                &&& final(self).end == old(self).end + 1
                &&& final(self).start == final(self).end
                &&& final(self).recipe_body_pending
                &&& final(self).recipe_body == old(self).recipe_body
                &&& final(self).indentation@ == old(self).indentation@
                &&& final(self).open_delimiters@ == old(self).open_delimiters@
                &&& final(self).interpolation_stack@ == old(self).interpolation_stack@
            },
            r is Ok ==> if start == '\\' && old(self).end + 1 >= old(self).src@.len() {
                final(self).tokens@ == old(self).tokens@
            } else {
                final(self).emitted(
                    old(self),
                    normal_kind(old(self).src@, old(self).end as int, old(self).open_delimiters@),
                )
            },
    {
        match start {
            ' ' | '\t' => self.lex_whitespace(),
            '!' => {
                if self.rest_starts_with("!include") {
                    Err(self.error(CompileErrorKind::Include))
                } else {
                    let choices = vec![('=', TokenKind::BangEquals), ('~', TokenKind::BangTilde)];
                    proof {
                        assert(choices@[0] == ('=', TokenKind::BangEquals));
                        assert(choices@[1] == ('~', TokenKind::BangTilde));
                        reveal_with_fuel(first_choice, 3);
                    }
                    self.lex_choices('!', choices.as_slice(), None)
                }
            },
            '#' => self.lex_comment(),
            '$' => self.lex_single(TokenKind::Dollar),
            '&' => self.lex_digraph('&', '&', TokenKind::AmpersandAmpersand),
            '(' => self.lex_delimiter(TokenKind::ParenL),
            ')' => self.lex_delimiter(TokenKind::ParenR),
            '*' => self.lex_single(TokenKind::Asterisk),
            '+' => self.lex_single(TokenKind::Plus),
            ',' => self.lex_single(TokenKind::Comma),
            '/' => self.lex_single(TokenKind::Slash),
            ':' => self.lex_colon(),
            '=' => {
                let choices = vec![('=', TokenKind::EqualsEquals), ('~', TokenKind::EqualsTilde)];
                proof {
                    assert(choices@[0] == ('=', TokenKind::EqualsEquals));
                    assert(choices@[1] == ('~', TokenKind::EqualsTilde));
                    reveal_with_fuel(first_choice, 3);
                }
                self.lex_choices('=', choices.as_slice(), Some(TokenKind::Equals))
            },
            '?' => self.lex_single(TokenKind::QuestionMark),
            '@' => self.lex_single(TokenKind::At),
            '[' => self.lex_delimiter(TokenKind::BracketL),
            '\\' => self.lex_escape(),
            '\n' | '\r' => self.lex_eol(),
            '\u{feff}' => self.lex_single(TokenKind::ByteOrderMark),
            ']' => self.lex_delimiter(TokenKind::BracketR),
            '`' | '"' | '\'' => self.lex_string(),
            '{' => self.lex_delimiter(TokenKind::BraceL),
            '|' => self.lex_digraph('|', '|', TokenKind::BarBar),
            '}' => self.lex_delimiter(TokenKind::BraceR),
            _ => {
                if Self::is_identifier_start(start) {
                    self.lex_identifier()
                } else {
                    self.advance();
                    Err(self.error(CompileErrorKind::UnknownStartOfToken { start }))
                }
            },
        }
    }

    /// Lex a token beginning with `start` inside an interpolation.
    fn lex_interpolation(&mut self, interpolation_start: Token, start: char) -> (r: Result<
        (),
        CompileError,
    >)
        requires
            old(self).wf(),
            old(self).next_spec() == Some(start),
            old(self).start == old(self).end,
        ensures
            r is Ok ==> final(self).stepped(old(self)) && final(self).end > old(self).end
                && final(self).settled(),
            r is Ok <==> if occurs_at(old(self).src@, "}}"@, old(self).end as int) {
                old(self).interpolation_stack@.len() > 0
            } else {
                !(old(self).src@[old(self).end as int] == '\n' || occurs_at(
                    old(self).src@,
                    "\r\n"@,
                    old(self).end as int,
                )) && normal_ok(
                    old(self).src@,
                    old(self).end as int,
                    old(self).open_delimiters@,
                )
            },
            r is Ok && occurs_at(old(self).src@, "}}"@, old(self).end as int) ==> {
                &&& final(self).end == old(self).end + 2
                &&& final(self).start == final(self).end
                &&& final(self).indentation@ == old(self).indentation@
                &&& final(self).open_delimiters@ == old(self).open_delimiters@
                &&& final(self).recipe_body == old(self).recipe_body
                &&& final(self).recipe_body_pending == old(self).recipe_body_pending
                &&& final(self).interpolation_stack@.len() + 1 == old(self).interpolation_stack@.len()
            },
            r is Ok && !occurs_at(old(self).src@, "}}"@, old(self).end as int) && !final_backslash(
                old(self).src@,
                old(self).end as int,
            ) ==> {
                &&& final(self).end == normal_end(old(self).src@, old(self).end as int)
                &&& final(self).start == final(self).end
                &&& final(self).indentation@ == old(self).indentation@
                &&& final(self).open_delimiters@ == delimiters_after(
                    old(self).src@,
                    old(self).end as int,
                    old(self).open_delimiters@,
                )
                &&& final(self).interpolation_stack@ == old(self).interpolation_stack@
                &&& final(self).recipe_body == old(self).recipe_body
                &&& final(self).recipe_body_pending == (old(self).recipe_body_pending || (start
                    == ':' && colon_kind(old(self).src@, old(self).end as int) == TokenKind::Colon))
            },
            r is Ok ==> if occurs_at(old(self).src@, "}}"@, old(self).end as int) {
                final(self).emitted(old(self), TokenKind::InterpolationEnd)
            } else if start == '\\' && old(self).end + 1 >= old(self).src@.len() {
                final(self).tokens@ == old(self).tokens@
            } else {
                final(self).emitted(
                    old(self),
                    normal_kind(old(self).src@, old(self).end as int, old(self).open_delimiters@),
                )
            },
    {
        if self.rest_starts_with("}}") {
            proof {
                reveal_strlit("}}");
                assert(self.src@.subrange(self.end as int, self.end + 2) =~= seq!['}', '}']);
            }
            // end current interpolation
            if self.interpolation_stack.pop().is_none() {
                self.advance();
                self.advance();
                return Err(self.internal_error(
                    "Lexer::lex_interpolation found `}}` but was called with empty interpolation stack.",
                ));
            }
            // Emit interpolation end token
            self.lex_double(TokenKind::InterpolationEnd)
        } else if self.at_eol_or_eof() {
            // Return unterminated interpolation error that highlights the
            // opening {{
            Err(Self::unterminated_interpolation_error(interpolation_start))
        } else {
            // Otherwise lex as per normal
            self.lex_normal(start)
        }
    }

    /// Lex a token while in a recipe body.
    fn lex_body(&mut self) -> (r: Result<(), CompileError>)
        requires
            old(self).wf(),
            old(self).end < old(self).src.len(),
            old(self).start == old(self).end,
        ensures
            r is Ok,
            final(self).stepped(old(self)),
            final(self).end > old(self).end,
            final(self).start == final(self).end,
            token_kinds(final(self).tokens@) == token_kinds(old(self).tokens@) + body_kinds(
                old(self).src@,
                old(self).end as int,
            ),
            final(self).end == body_end(old(self).src@, old(self).end as int),
            ({
                let e = body_text_end(old(self).src@, old(self).end as int);
                e >= old(self).src@.len() || old(self).src@[e] != '{'
            }) ==> final(self).same_layout(old(self)),
            final(self).indentation@ == old(self).indentation@,
            final(self).open_delimiters@ == old(self).open_delimiters@,
            final(self).recipe_body == old(self).recipe_body,
            final(self).recipe_body_pending == old(self).recipe_body_pending,
            final(self).interpolation_stack@.len() == old(self).interpolation_stack@.len() + (if ({
                let e = body_text_end(old(self).src@, old(self).end as int);
                e < old(self).src@.len() && old(self).src@[e] == '{'
            }) {
                1int
            } else {
                0int
            }),
    {
        proof {
            reveal_strlit("{{{{");
            reveal_strlit("\n");
            reveal_strlit("\r\n");
            reveal_strlit("{{");
        }
        let mut terminator = Terminator::EndOfFile;
        loop
            invariant
                self.stepped(old(self)),
                old(self).end < self.src.len(),
                self.start == old(self).end,
                self.tokens@ == old(self).tokens@,
                self.same_layout(old(self)),
                forall|j: int| self.start <= j < self.end ==> #[trigger] self.src@[j] != '\n',
                body_text_end(self.src@, self.end as int) == body_text_end(
                    self.src@,
                    old(self).end as int,
                ),
            ensures
                self.same_layout(old(self)),
                body_text_end(self.src@, old(self).end as int) == self.end,
                self.stepped(old(self)),
                self.start == old(self).end,
                self.tokens@ == old(self).tokens@,
                forall|j: int| self.start <= j < self.end ==> #[trigger] self.src@[j] != '\n',
                match terminator {
                    Terminator::Newline => self.end + 1 <= self.src.len() && self.src@[self.end as int]
                        == '\n',
                    Terminator::NewlineCarriageReturn => self.end + 2 <= self.src.len()
                        && self.src@.subrange(self.end as int, self.end + 2) == seq!['\r', '\n'],
                    Terminator::Interpolation => self.end + 2 <= self.src.len() && self.src@.subrange(
                        self.end as int,
                        self.end + 2,
                    ) == seq!['{', '{'],
                    Terminator::EndOfFile => self.end > old(self).end && self.end >= self.src.len(),
                },
            decreases self.src.len() - self.end,
        {
            proof {
                reveal_strlit("{{{{");
                reveal_strlit("\n");
                reveal_strlit("\r\n");
                reveal_strlit("{{");
            }
            proof {
                if self.end < self.src.len() {
                    lemma_body_step(self.src@, self.end as int);
                }
            }
            if self.rest_starts_with("{{{{") {
                let ghost before = self.end as int;
                self.skip(4);
                proof {
                    assert forall|j: int| self.start <= j < self.end implies #[trigger] self.src@[j]
                        != '\n' by {
                        if j >= before {
                            assert(self.src@.subrange(before, before + 4)[j - before] == '{');
                        }
                    }
                }
                continue;
            }
            if self.rest_starts_with("\n") {
                assert(self.src@.subrange(self.end as int, self.end + 1)[0] == '\n');
                terminator = Terminator::Newline;
                break;
            }
            if self.rest_starts_with("\r\n") {
                assert(self.src@.subrange(self.end as int, self.end + 2) =~= seq!['\r', '\n']);
                terminator = Terminator::NewlineCarriageReturn;
                break;
            }
            if self.rest_starts_with("{{") {
                assert(self.src@.subrange(self.end as int, self.end + 2) =~= seq!['{', '{']);
                terminator = Terminator::Interpolation;
                break;
            }
            if self.at_eof() {
                terminator = Terminator::EndOfFile;
                break;
            }
            proof {
                if self.src@[self.end as int] == '\n' {
                    assert(self.src@.subrange(self.end as int, self.end + 1) =~= "\n"@);
                }
            }
            self.advance();
        }
        let ghost text_tokens = self.tokens@;
        // emit text token containing text so far
        if self.current_token_length() > 0 {
            proof {
                let t = self.src@.subrange(self.start as int, self.end as int);
                assert forall|i: int| 0 <= i < t.len() implies t[i] != '\n' by {
                    assert(t[i] == self.src@[self.start + i]);
                }
                assert(!t.contains('\n'));
            }
            self.token(TokenKind::Text);
        } else {
            proof {
                if self.start < self.end {
                    lemma_prefix_bytes_strict(self.src@, self.start as int, self.end as int);
                }
            }
        }
        let ghost after_text = self.tokens@;
        proof {
            let e = body_text_end(self.src@, old(self).end as int);
            assert(e == self.end);
            if after_text.len() > text_tokens.len() {
                lemma_kinds_push(text_tokens, self.tokens@.last());
                assert(token_kinds(after_text) == token_kinds(old(self).tokens@) + seq![
                    TokenKind::Text,
                ]);
            } else {
                assert(token_kinds(after_text) =~= token_kinds(old(self).tokens@) + Seq::<
                    TokenKind,
                >::empty());
            }
        }
        match terminator {
            Terminator::Newline => self.lex_single(TokenKind::Eol),
            Terminator::NewlineCarriageReturn => self.lex_double(TokenKind::Eol),
            Terminator::Interpolation => {
                self.lex_double(TokenKind::InterpolationStart)?;
                let last = self.tokens[self.tokens.len() - 1];
                self.interpolation_stack.push(last);
                Ok(())
            },
            Terminator::EndOfFile => Ok(()),
        }
    }

    /// Consume the text and produce a series of tokens.
    fn tokenize(self) -> (r: Result<Vec<Token>, CompileError>)
        requires
            self.wf(),
            self.settled(),
            self.clean(),
        ensures
            r matches Ok(tokens) ==> {
                &&& exists|bounds: Seq<int>|
                    tokens_tile(self.src@, tokens@, bounds, self.src@.len() as int) && tokens_fit(
                        self.src@,
                        tokens@,
                        bounds,
                    )
                &&& no_unspecified(tokens@)
                &&& indent_depth(tokens@) == 0
                &&& well_nested(tokens@)
                &&& tokens@.len() > 0
                &&& tokens@.last().kind == TokenKind::Eof
                &&& (tokens@.last().length == 0 || (self.src@.len() > 0 && self.src@.last() == '\\'))
            },
            self.plain_state() ==> (r matches Ok(tokens) && token_kinds(tokens@) == token_kinds(
                self.tokens@,
            ) + plain_kinds(self.src@, self.end as int)),
            self.lex_state() ==> match lex_kinds(
                self.src@,
                self.end as int,
                level_views(self.indentation@),
                self.recipe_body,
                self.recipe_body_pending,
                self.open_delimiters@,
                self.interpolation_stack@.len(),
            ) {
                Ok(kinds) => r matches Ok(tokens) && token_kinds(tokens@) == token_kinds(
                    self.tokens@,
                ) + kinds,
                Err(LexFailure::LineStart { at, levels, body }) => r matches Err(e)
                    && line_start_error(self.src@, at, levels, body, e),
                Err(LexFailure::Token { .. }) => r is Err,
                Err(LexFailure::Unstated { .. }) => true,
            },
    {
        let mut lexer = self;
        lexer.run()
    }

    /// The body of `tokenize`, on a lexer it may change.
    #[verifier::spinoff_prover]
    #[verifier::rlimit(100)]
    fn run(&mut self) -> (r: Result<Vec<Token>, CompileError>)
        requires
            old(self).wf(),
            old(self).settled(),
            old(self).clean(),
        ensures
            r matches Ok(tokens) ==> {
                &&& exists|bounds: Seq<int>|
                    tokens_tile(old(self).src@, tokens@, bounds, old(self).src@.len() as int)
                        && tokens_fit(old(self).src@, tokens@, bounds)
                &&& no_unspecified(tokens@)
                &&& indent_depth(tokens@) == 0
                &&& well_nested(tokens@)
                &&& tokens@.len() > 0
                &&& tokens@.last().kind == TokenKind::Eof
                &&& (tokens@.last().length == 0 || (old(self).src@.len() > 0 && old(self).src@.last()
                    == '\\'))
            },
            old(self).plain_state() ==> (r matches Ok(tokens) && token_kinds(tokens@) == token_kinds(
                old(self).tokens@,
            ) + plain_kinds(old(self).src@, old(self).end as int)),
            old(self).lex_state() ==> match lex_kinds(
                old(self).src@,
                old(self).end as int,
                level_views(old(self).indentation@),
                old(self).recipe_body,
                old(self).recipe_body_pending,
                old(self).open_delimiters@,
                old(self).interpolation_stack@.len(),
            ) {
                Ok(kinds) => r matches Ok(tokens) && token_kinds(tokens@) == token_kinds(
                    old(self).tokens@,
                ) + kinds,
                Err(LexFailure::LineStart { at, levels, body }) => r matches Err(e)
                    && line_start_error(old(self).src@, at, levels, body, e),
                Err(LexFailure::Token { .. }) => r is Err,
                Err(LexFailure::Unstated { .. }) => true,
            },
    {
        let ghost src = self.src@;
        let ghost plain = old(self).plain_state();
        let ghost ind = old(self).lex_state();
        let ghost goal = prepend_kinds(
            token_kinds(old(self).tokens@),
            lex_kinds(
                src,
                old(self).end as int,
                level_views(old(self).indentation@),
                old(self).recipe_body,
                old(self).recipe_body_pending,
                old(self).open_delimiters@,
                old(self).interpolation_stack@.len(),
            ),
        );
        let ghost mut track = ind;
        loop
            invariant
                self.wf(),
                self.src@ == src,
                self.settled(),
                old(self).clean() ==> self.clean(),
                plain == old(self).plain_state(),
                plain ==> self.plain_state(),
                plain ==> token_kinds(self.tokens@) + plain_kinds(src, self.end as int) == token_kinds(
                    old(self).tokens@,
                ) + plain_kinds(src, old(self).end as int),
                ind == old(self).lex_state(),
                track ==> ind,
                ind && !track ==> goal matches Err(LexFailure::Unstated { .. }),
                track ==> self.lex_state(),
                track ==> goal == prepend_kinds(
                    token_kinds(self.tokens@),
                    lex_kinds(
                        src,
                        self.end as int,
                        level_views(self.indentation@),
                        self.recipe_body,
                        self.recipe_body_pending,
                        self.open_delimiters@,
                        self.interpolation_stack@.len(),
                    ),
                ),
                src == old(self).src@,
                goal == prepend_kinds(
                    token_kinds(old(self).tokens@),
                    lex_kinds(
                src,
                old(self).end as int,
                level_views(old(self).indentation@),
                old(self).recipe_body,
                old(self).recipe_body_pending,
                old(self).open_delimiters@,
                old(self).interpolation_stack@.len(),
            ),
                ),
            ensures
                self.wf(),
                self.src@ == src,
                self.end == self.src.len(),
                self.settled(),
                old(self).clean() ==> self.clean(),
                plain == old(self).plain_state(),
                plain ==> self.plain_state(),
                plain ==> token_kinds(self.tokens@) + plain_kinds(src, self.end as int) == token_kinds(
                    old(self).tokens@,
                ) + plain_kinds(src, old(self).end as int),
                ind == old(self).lex_state(),
                track ==> ind,
                ind && !track ==> goal matches Err(LexFailure::Unstated { .. }),
                track ==> self.lex_state(),
                track ==> goal == prepend_kinds(
                    token_kinds(self.tokens@),
                    lex_step_kinds(
                        src,
                        self.end as int,
                        level_views(self.indentation@),
                        self.recipe_body,
                        self.recipe_body_pending,
                        self.open_delimiters@,
                        self.interpolation_stack@.len(),
                    ),
                ),
            decreases self.src.len() - self.end,
        {
            let ghost before = self.end;
            let ghost before_tokens = self.tokens@;
            if self.token_start.column == 0 {
                proof {
                    if plain && self.end < self.src.len() {
                        if self.end > 0 {
                            lemma_column_zero(self.src@, self.end as int);
                        }
                        assert(!is_blank(self.src@[self.end as int]));
                    }
                }
                proof {
                    if track && self.end > 0 {
                        lemma_column_zero(self.src@, self.end as int);
                    }
                }
                let ghost line_levels = level_views(self.indentation@);
                let ghost line_body = self.recipe_body;
                let ghost line_pending = self.recipe_body_pending;
                let ghost line_open = self.open_delimiters@;
                let ghost line_interp = self.interpolation_stack@.len();
                match self.lex_line_start() {
                    Err(e) => {
                        proof {
                            if track {
                                lemma_line_start_failure(
                                    src,
                                    before as int,
                                    line_levels,
                                    line_body,
                                    line_pending,
                                    line_open,
                                    line_interp,
                                    token_kinds(before_tokens),
                                );
                            }
                        }
                        return Err(e);
                    },
                    Ok(()) => {},
                }
                proof {
                    if track {
                        lemma_line_start_outcome(
                            src,
                            before as int,
                            line_levels,
                            line_body,
                            line_pending,
                            line_open,
                            line_interp,
                            token_kinds(before_tokens),
                            token_kinds(self.tokens@),
                            self.end as int,
                            level_views(self.indentation@),
                            self.recipe_body,
                            self.recipe_body_pending,
                        );
                    }
                }
            } else {
                proof {
                    if track {
                        lemma_mid_line(
                            src,
                            before as int,
                            level_views(self.indentation@),
                            self.recipe_body,
                            self.recipe_body_pending,
                            self.open_delimiters@,
                            self.interpolation_stack@.len(),
                        );
                    }
                }
            }
            let ghost mid_tokens = self.tokens@;
            let ghost mid_end = self.end;
            let ghost mid_body = self.recipe_body;
            let ghost mid_pending = self.recipe_body_pending;
            let ghost mid_open = self.open_delimiters@;
            let ghost mid_levels = level_views(self.indentation@);
            let ghost mid_interp = self.interpolation_stack@.len();
            match self.next() {
                Some(first) => {
                    if self.interpolation_stack.len() > 0 {
                        let interpolation_start = self.interpolation_stack[self.interpolation_stack.len() - 1];
                        proof {
                            if track && first == '\\' && self.end + 1 >= self.src.len() {
                                lemma_step_unstated(
                                    src,
                                    mid_end as int,
                                    mid_levels,
                                    mid_body,
                                    mid_pending,
                                    mid_open,
                                    mid_interp,
                                    token_kinds(mid_tokens),
                                );
                                track = false;
                            }
                        }
                        match self.lex_interpolation(interpolation_start, first) {
                            Err(e) => {
                                proof {
                                    if track {
                                        lemma_step_failure(
                                            src,
                                            mid_end as int,
                                            mid_levels,
                                            mid_body,
                                            mid_pending,
                                            mid_open,
                                            mid_interp,
                                            token_kinds(mid_tokens),
                                        );
                                    }
                                }
                                return Err(e);
                            },
                            Ok(()) => {},
                        }
                        proof {
                            if track {
                                let k = self.tokens@.last().kind;
                                assert(self.tokens@ == mid_tokens.push(self.tokens@.last()));
                                assert(token_kinds(self.tokens@) =~= token_kinds(mid_tokens) + seq![k]);
                                if occurs_at(src, "}}"@, mid_end as int) {
                                    lemma_interpolation_end_outcome(
                                        src,
                                        mid_end as int,
                                        mid_levels,
                                        mid_body,
                                        mid_pending,
                                        mid_open,
                                        mid_interp,
                                        token_kinds(mid_tokens),
                                        token_kinds(self.tokens@),
                                    );
                                } else {
                                    lemma_normal_step_outcome(
                                        src,
                                        mid_end as int,
                                        mid_levels,
                                        mid_body,
                                        mid_pending,
                                        mid_open,
                                        mid_interp,
                                        token_kinds(mid_tokens),
                                        token_kinds(self.tokens@),
                                    );
                                }
                            }
                        }
                    } else if self.recipe_body {
                        self.lex_body()?;
                        proof {
                            if track {
                                lemma_body_step_outcome(
                                    src,
                                    mid_end as int,
                                    mid_levels,
                                    mid_pending,
                                    mid_open,
                                    token_kinds(mid_tokens),
                                    token_kinds(self.tokens@),
                                );
                            }
                        }
                    } else {
                        proof {
                            if track && first == '\\' && self.end + 1 >= self.src.len() {
                                lemma_step_unstated(
                                    src,
                                    mid_end as int,
                                    mid_levels,
                                    mid_body,
                                    mid_pending,
                                    mid_open,
                                    mid_interp,
                                    token_kinds(mid_tokens),
                                );
                                track = false;
                            }
                        }
                        match self.lex_normal(first) {
                            Err(e) => {
                                proof {
                                    if track {
                                        lemma_step_failure(
                                            src,
                                            mid_end as int,
                                            mid_levels,
                                            mid_body,
                                            mid_pending,
                                            mid_open,
                                            mid_interp,
                                            token_kinds(mid_tokens),
                                        );
                                    }
                                }
                                return Err(e);
                            },
                            Ok(()) => {},
                        }
                        proof {
                            if track {
                                let k = self.tokens@.last().kind;
                                assert(self.tokens@ == mid_tokens.push(self.tokens@.last()));
                                assert(token_kinds(self.tokens@) =~= token_kinds(mid_tokens) + seq![k]);
                                lemma_normal_step_outcome(
                                    src,
                                    mid_end as int,
                                    mid_levels,
                                    mid_body,
                                    mid_pending,
                                    mid_open,
                                    mid_interp,
                                    token_kinds(mid_tokens),
                                    token_kinds(self.tokens@),
                                );
                            }
                        }
                    }
                },
                None => {
                    proof {
                        if track {
                            lemma_mid_line(
                                src,
                                self.end as int,
                                level_views(self.indentation@),
                                self.recipe_body,
                                self.recipe_body_pending,
                                self.open_delimiters@,
                                self.interpolation_stack@.len(),
                            );
                        }
                    }
                    break;
                },
            }
            assert(self.end > before);
            proof {
                if plain {
                    let k = self.tokens@.last().kind;
                    assert(self.tokens@ == before_tokens.push(self.tokens@.last()));
                    assert(token_kinds(self.tokens@) =~= token_kinds(before_tokens).push(k));
                    assert(plain_kinds(src, before as int) == seq![k] + plain_kinds(src, self.end as int));
                    assert(token_kinds(self.tokens@) + plain_kinds(src, self.end as int) =~= token_kinds(
                        before_tokens,
                    ) + plain_kinds(src, before as int));
                }
            }
        }
        proof {
            if track {
                lemma_step_at_end(
                    src,
                    self.end as int,
                    level_views(self.indentation@),
                    self.recipe_body,
                    self.recipe_body_pending,
                    self.open_delimiters@,
                    self.interpolation_stack@.len(),
                );
            }
        }
        if self.interpolation_stack.len() > 0 {
            let interpolation_start = self.interpolation_stack[self.interpolation_stack.len() - 1];
            return Err(Self::unterminated_interpolation_error(interpolation_start));
        }
        while self.indented()
            invariant
                self.wf(),
                self.src@ == src,
                self.end == self.src.len(),
                self.settled(),
                old(self).clean() ==> self.clean(),
                plain == old(self).plain_state(),
                plain ==> self.plain_state(),
                plain ==> token_kinds(self.tokens@) + plain_kinds(src, self.end as int) == token_kinds(
                    old(self).tokens@,
                ) + plain_kinds(src, old(self).end as int),
                ind == old(self).lex_state(),
                track ==> ind,
                ind && !track ==> goal matches Err(LexFailure::Unstated { .. }),
                src == old(self).src@,
                goal == prepend_kinds(
                    token_kinds(old(self).tokens@),
                    lex_kinds(
                        src,
                        old(self).end as int,
                        level_views(old(self).indentation@),
                        old(self).recipe_body,
                        old(self).recipe_body_pending,
                old(self).open_delimiters@,
                old(self).interpolation_stack@.len(),
                    ),
                ),
                track ==> self.start == self.end,
                track ==> goal == prepend_kinds(
                    token_kinds(self.tokens@),
                    Ok(closing_kinds(level_views(self.indentation@))),
                ),
            decreases self.indentation.len(),
        {
            let ghost before_levels = self.indentation@;
            let ghost before_dedent = self.tokens@;
            self.lex_dedent()?;
            proof {
                if track {
                    lemma_level_views(before_levels);
                    assert(token_kinds(self.tokens@) =~= token_kinds(before_dedent).push(
                        TokenKind::Dedent,
                    ));
                    assert(closing_kinds(level_views(before_levels)) =~= seq![TokenKind::Dedent]
                        + closing_kinds(level_views(self.indentation@)));
                    assert(token_kinds(before_dedent) + closing_kinds(level_views(before_levels))
                        =~= token_kinds(self.tokens@) + closing_kinds(level_views(self.indentation@)));
                }
            }
        }
        let ghost before_eof = self.tokens@;
        proof {
            if self.start != self.end {
                assert(self.src@.subrange(self.start as int, self.end as int)[0] == '\\');
                assert(self.src@.subrange(self.start as int, self.end as int).len() == 1);
                assert(self.src@.last() == '\\');
            }
        }
        self.token(TokenKind::Eof);
        proof {
            if track {
                lemma_level_views(self.indentation@);
                assert(closing_kinds(level_views(self.indentation@)) =~= seq![TokenKind::Eof]);
                assert(token_kinds(self.tokens@) =~= token_kinds(before_eof) + seq![TokenKind::Eof]);
                assert(goal == Ok::<Seq<TokenKind>, LexFailure>(
                    token_kinds(self.tokens@),
                ));
            }
            if plain {
                assert(token_kinds(self.tokens@) =~= token_kinds(before_eof).push(TokenKind::Eof));
                assert(token_kinds(self.tokens@) =~= token_kinds(before_eof) + plain_kinds(
                    src,
                    self.end as int,
                ));
            }
        }
        assert(self.start == self.end);
        assert(self.indentation.len() == 1);
        let ghost bounds = self.bounds@;
        let mut tokens: Vec<Token> = Vec::new();
        std::mem::swap(&mut tokens, &mut self.tokens);
        assert(tokens_tile(src, tokens@, bounds, src.len() as int));
        assert(tokens_fit(src, tokens@, bounds));
        Ok(tokens)
    }

    /// True if `c` can be the first character of an identifier.
    pub fn is_identifier_start(c: char) -> (r: bool)
        ensures
            r == spec_is_identifier_start(c),
    {
        ('a' <= c && c <= 'z') || ('A' <= c && c <= 'Z') || c == '_'
    }

    /// True if `c` can be a continuation character of an identifier.
    pub fn is_identifier_continue(c: char) -> (r: bool)
        ensures
            r == spec_is_identifier_continue(c),
    {
        Self::is_identifier_start(c) || ('0' <= c && c <= '9') || c == '-'
    }

    /// True if `text` could be an identifier.
    pub fn is_identifier(text: &str) -> (r: bool)
        ensures
            r == spec_is_identifier(text@),
    {
        let chars = chars_of(text);
        if chars.len() == 0 || !Self::is_identifier_start(chars[0]) {
            return false;
        }
        let mut i: usize = 1;
        while i < chars.len()
            invariant
                chars@ == text@,
                1 <= i <= chars.len(),
                forall|j: int| 1 <= j < i ==> spec_is_identifier_continue(#[trigger] chars@[j]),
            decreases chars.len() - i,
        {
            if !Self::is_identifier_continue(chars[i]) {
                return false;
            }
            i += 1;
        }
        true
    }
}

/// Lex `src` into tokens.
///
/// On success the tokens, in order, cover the whole text without gap or
/// overlap, each with the byte offset, line and column of where it starts;
/// the text of each fits its kind (by `lexeme_fits`), none is of
/// unspecified kind, every indent is closed by a later dedent (no prefix
/// holds more dedents than indents, and the whole holds as many of each),
/// and the last one is the end-of-file token, which is empty unless the
/// text ends with a backslash.
///
/// Plain text (`plain_text`) always lexes, when its length in bytes fits a
/// `usize`, into the tokens whose kinds `plain_kinds` gives: one per word,
/// run of blanks, line feed and punctuation character, then the end of the
/// file. Any text whose length in bytes fits a `usize` lexes as
/// `lex_kinds` says: into the tokens whose kinds it gives, with indents and
/// dedents at the line starts and the lines of recipe bodies as text; or
/// failing at the first line start whose blanks do not fit the open
/// indentation levels, with the error `line_start_error` describes; or
/// failing at the first token that cannot be lexed, or at the end where an
/// interpolation is still open. `lex_kinds` follows delimiters, escaped line
/// breaks, strings, comments, recipe bodies and interpolations; the one case
/// it leaves open is a text whose last character is a backslash, where the
/// end-of-file token holds that backslash.
pub fn lex(src: &str) -> (r: Result<Vec<Token>, CompileError>)
    ensures
        r matches Ok(tokens) ==> {
            &&& exists|bounds: Seq<int>|
                tokens_tile(src@, tokens@, bounds, src@.len() as int) && tokens_fit(
                    src@,
                    tokens@,
                    bounds,
                )
            &&& no_unspecified(tokens@)
            &&& indent_depth(tokens@) == 0
            &&& well_nested(tokens@)
            &&& tokens@.len() > 0
            &&& tokens@.last().kind == TokenKind::Eof
            &&& (tokens@.last().length == 0 || (src@.len() > 0 && src@.last() == '\\'))
        },
        r is Err ==> !plain_text(src@) || prefix_bytes(src@, src@.len() as int) > usize::MAX,
        plain_text(src@) && prefix_bytes(src@, src@.len() as int) <= usize::MAX ==> (r matches Ok(
            tokens,
        ) && token_kinds(tokens@) == plain_kinds(src@, 0)),
        prefix_bytes(src@, src@.len() as int) <= usize::MAX ==> match lex_kinds(
            src@,
            0,
            seq![Seq::<char>::empty()],
            false,
            false,
            Seq::empty(),
            0,
        ) {
            Ok(kinds) => r matches Ok(tokens) && token_kinds(tokens@) == kinds,
            Err(LexFailure::LineStart { at, levels, body }) => r matches Err(e) && line_start_error(
                src@,
                at,
                levels,
                body,
                e,
            ),
            Err(LexFailure::Token { .. }) => r is Err,
            Err(LexFailure::Unstated { .. }) => true,
        },
{
    let chars = chars_of(src);
    match Lexer::with_chars(chars) {
        Some(lexer) => {
            proof {
                assert(token_kinds(lexer.tokens@) =~= Seq::<TokenKind>::empty());
                assert(lexer.open_delimiters@ =~= Seq::<(Delimiter, usize)>::empty());
                if let Ok(kinds) = lex_kinds(src@, 0, seq![Seq::<char>::empty()], false, false, Seq::empty(), 0) {
                    assert(token_kinds(lexer.tokens@) + kinds =~= kinds);
                }
            }
            lexer.tokenize()
        },
        None => {
            let token = Token { offset: 0, length: 0, line: 0, column: 0, kind: TokenKind::Unspecified };
            Err(CompileError::new(
                token,
                CompileErrorKind::Internal { message: String::from_str("source text is too long") },
            ))
        },
    }
}

} // verus!
