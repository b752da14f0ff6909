//! Character-level text helpers shared by the rest of the library.
//!
//! Text is handled as the sequence of its Unicode scalar values (`s@`), so
//! positions below count characters, not bytes.
use vstd::prelude::*;
use vstd::string::*;

verus! {

/// `needle` occurs in `hay` starting at position `i`.
pub open spec fn occurs_at(hay: Seq<char>, needle: Seq<char>, i: int) -> bool {
    0 <= i && i + needle.len() <= hay.len() && hay.subrange(i, i + needle.len()) =~= needle
}

/// `needle` occurs somewhere in `hay`.
pub open spec fn contains_seq(hay: Seq<char>, needle: Seq<char>) -> bool {
    exists|i: int| #[trigger] occurs_at(hay, needle, i)
}

/// `i` is the position of the first `c` in `s`.
pub open spec fn is_first_index(s: Seq<char>, c: char, i: int) -> bool {
    0 <= i < s.len() && s[i] == c && forall|j: int| 0 <= j < i ==> s[j] != c
}

/// `i` is the position of the last `c` in `s`.
pub open spec fn is_last_index(s: Seq<char>, c: char, i: int) -> bool {
    0 <= i < s.len() && s[i] == c && forall|j: int| i < j < s.len() ==> s[j] != c
}

/// The position of the first `c` in `s`, if there is one.
pub open spec fn first_index(s: Seq<char>, c: char) -> Option<int> {
    if s.contains(c) {
        Some(choose|i: int| is_first_index(s, c, i))
    } else {
        None
    }
}

/// The position of the last `c` in `s`, if there is one.
pub open spec fn last_index(s: Seq<char>, c: char) -> Option<int> {
    if s.contains(c) {
        Some(choose|i: int| is_last_index(s, c, i))
    } else {
        None
    }
}

/// The view of an optional owned string.
pub open spec fn opt_view(o: Option<String>) -> Option<Seq<char>> {
    match o {
        Some(s) => Some(s@),
        None => None,
    }
}

/// Appends `c` to `s`.
#[verifier::external_body]
pub(crate) fn push_char(s: &mut String, c: char)
    ensures
        final(s)@ == old(s)@.push(c),
{
    s.push(c);
}

/// The characters of `s`.
pub fn chars_of(s: &str) -> (r: Vec<char>)
    ensures
        r@ == s@,
{
    let n = s.unicode_len();
    let mut r: Vec<char> = Vec::new();
    let mut i: usize = 0;
    while i < n
        invariant
            n == s@.len(),
            i <= n,
            r@ =~= s@.subrange(0, i as int),
        decreases n - i,
    {
        r.push(s.get_char(i));
        i += 1;
    }
    r
}

/// Appends the characters of `t` to `s`.
pub fn append_str(s: &mut String, t: &str)
    ensures
        final(s)@ == old(s)@ + t@,
{
    let n = t.unicode_len();
    let mut i: usize = 0;
    while i < n
        invariant
            n == t@.len(),
            i <= n,
            s@ =~= old(s)@ + t@.subrange(0, i as int),
        decreases n - i,
    {
        push_char(s, t.get_char(i));
        i += 1;
    }
    assert(t@.subrange(0, n as int) =~= t@);
}

/// A string holding exactly the characters `chars[from..to]`.
pub fn string_from_chars(chars: &[char], from: usize, to: usize) -> (r: String)
    requires
        from <= to <= chars.len(),
    ensures
        r@ =~= chars@.subrange(from as int, to as int),
{
    let mut r = String::new();
    let mut i = from;
    while i < to
        invariant
            from <= i <= to <= chars.len(),
            r@ =~= chars@.subrange(from as int, i as int),
        decreases to - i,
    {
        push_char(&mut r, chars[i]);
        i += 1;
    }
    r
}

/// Whether `needle` occurs in `hay` at position `i`.
pub fn occurs_at_exec(hay: &[char], needle: &[char], i: usize) -> (r: bool)
    ensures
        r == occurs_at(hay@, needle@, i as int),
{
    if i > hay.len() || needle.len() > hay.len() - i {
        return false;
    }
    let mut k: usize = 0;
    while k < needle.len()
        invariant
            i + needle.len() <= hay.len(),
            k <= needle.len(),
            forall|d: int| 0 <= d < k ==> hay@[i + d] == needle@[d],
        decreases needle.len() - k,
    {
        if hay[i + k] != needle[k] {
            assert(hay@.subrange(i as int, i + needle.len())[k as int] != needle@[k as int]);
            return false;
        }
        k += 1;
    }
    true
}

/// Whether `hay` begins with `prefix`.
pub fn starts_with(hay: &[char], prefix: &str) -> (r: bool)
    ensures
        r == prefix@.is_prefix_of(hay@),
{
    let p = chars_of(prefix);
    occurs_at_exec(hay, p.as_slice(), 0)
}

/// Whether `hay` ends with `suffix`.
pub fn ends_with(hay: &[char], suffix: &str) -> (r: bool)
    ensures
        r == suffix@.is_suffix_of(hay@),
{
    let p = chars_of(suffix);
    if p.len() > hay.len() {
        return false;
    }
    occurs_at_exec(hay, p.as_slice(), hay.len() - p.len())
}

/// Whether `needle` occurs anywhere in `hay`.
pub fn contains_str(hay: &[char], needle: &str) -> (r: bool)
    ensures
        r == contains_seq(hay@, needle@),
{
    let p = chars_of(needle);
    let mut i: usize = 0;
    while i < hay.len()
        invariant
            p@ == needle@,
            i <= hay.len(),
            forall|j: int| 0 <= j < i ==> !occurs_at(hay@, needle@, j),
        decreases hay.len() - i,
    {
        if occurs_at_exec(hay, p.as_slice(), i) {
            return true;
        }
        i += 1;
    }
    if occurs_at_exec(hay, p.as_slice(), i) {
        return true;
    }
    assert forall|j: int| !(#[trigger] occurs_at(hay@, needle@, j)) by {
        if 0 <= j && j < i {
        }
    }
    false
}

/// Whether `c` occurs in `hay`.
pub fn contains_char(hay: &[char], c: char) -> (r: bool)
    ensures
        r == hay@.contains(c),
{
    match find_char(hay, c) {
        Some(_) => true,
        None => false,
    }
}

/// The position of the first `c` in `hay`, if any.
pub fn find_char(hay: &[char], c: char) -> (r: Option<usize>)
    ensures
        match r {
            Some(i) => is_first_index(hay@, c, i as int),
            None => !hay@.contains(c),
        },
        opt_index(r) == first_index(hay@, c),
{
    let mut i: usize = 0;
    while i < hay.len()
        invariant
            i <= hay.len(),
            forall|j: int| 0 <= j < i ==> hay@[j] != c,
        decreases hay.len() - i,
    {
        if hay[i] == c {
            proof {
                lemma_first_index_unique(hay@, c, i as int);
            }
            return Some(i);
        }
        i += 1;
    }
    None
}

/// The position of the last `c` in `hay`, if any.
pub fn rfind_char(hay: &[char], c: char) -> (r: Option<usize>)
    ensures
        match r {
            Some(i) => is_last_index(hay@, c, i as int),
            None => !hay@.contains(c),
        },
        opt_index(r) == last_index(hay@, c),
{
    let mut i: usize = hay.len();
    while i > 0
        invariant
            i <= hay.len(),
            forall|j: int| i <= j < hay.len() ==> hay@[j] != c,
        decreases i,
    {
        if hay[i - 1] == c {
            proof {
                lemma_last_index_unique(hay@, c, i - 1);
            }
            return Some(i - 1);
        }
        i -= 1;
    }
    None
}

/// An optional position as a mathematical integer.
pub open spec fn opt_index(r: Option<usize>) -> Option<int> {
    match r {
        Some(i) => Some(i as int),
        None => None,
    }
}

/// The first position of `c` in `s` is the one that `is_first_index` names.
pub proof fn lemma_first_index_unique(s: Seq<char>, c: char, i: int)
    requires
        is_first_index(s, c, i),
    ensures
        first_index(s, c) == Some(i),
{
    assert(s.contains(c));
    let k = choose|k: int| is_first_index(s, c, k);
    assert(is_first_index(s, c, k));
    if k < i {
        assert(s[k] != c);
    } else if k > i {
        assert(s[i] != c);
    }
}

/// The last position of `c` in `s` is the one that `is_last_index` names.
pub proof fn lemma_last_index_unique(s: Seq<char>, c: char, i: int)
    requires
        is_last_index(s, c, i),
    ensures
        last_index(s, c) == Some(i),
{
    assert(s.contains(c));
    let k = choose|k: int| is_last_index(s, c, k);
    assert(is_last_index(s, c, k));
    if k < i {
        assert(s[i] != c);
    } else if k > i {
        assert(s[k] != c);
    }
}

/// The character of digit `d` in bases up to sixteen, lower case.
pub open spec fn digit_char(d: nat) -> char {
    if d < 10 {
        (48 + d) as char
    } else {
        (87 + d) as char
    }
}

/// The digits of `n` in base `base`, most significant first, without
/// leading zeros (zero is written `0`).
pub open spec fn digits(n: nat, base: nat) -> Seq<char>
    recommends
        2 <= base <= 16,
    decreases n,
{
    if n < base || base < 2 {
        seq![digit_char(n)]
    } else {
        proof {
            assert(n / base < n) by (nonlinear_arith)
                requires
                    base >= 2,
                    n >= base,
            ;
        }
        digits(n / base, base).push(digit_char(n % base))
    }
}

fn digit_char_exec(d: u64) -> (c: char)
    requires
        d < 16,
    ensures
        c == digit_char(d as nat),
{
    if d < 10 {
        ((48 + d) as u8) as char
    } else {
        ((87 + d) as u8) as char
    }
}

/// `n` written in base `base`, as `format!` writes it with `{}` (base ten)
/// or `{:x}` (base sixteen).
pub fn format_digits(n: u64, base: u64) -> (r: String)
    requires
        2 <= base <= 16,
    ensures
        r@ == digits(n as nat, base as nat),
{
    let mut m = n;
    let mut low: Vec<char> = Vec::new();
    while m >= base
        invariant
            2 <= base <= 16,
            digits(n as nat, base as nat) =~= digits(m as nat, base as nat) + low@,
        decreases m,
    {
        let c = digit_char_exec(m % base);
        let ghost old_low = low@;
        low.insert(0, c);
        proof {
            assert(digits(m as nat, base as nat) == digits((m / base) as nat, base as nat).push(c));
            assert(digits(m as nat, base as nat) + old_low =~= digits((m / base) as nat, base as nat) + low@);
        }
        m = m / base;
    }
    let mut r = String::new();
    push_char(&mut r, digit_char_exec(m));
    let mut i: usize = 0;
    while i < low.len()
        invariant
            i <= low.len(),
            digits(n as nat, base as nat) =~= digits(m as nat, base as nat) + low@,
            digits(m as nat, base as nat) == seq![digit_char(m as nat)],
            r@ =~= seq![digit_char(m as nat)] + low@.subrange(0, i as int),
        decreases low.len() - i,
    {
        push_char(&mut r, low[i]);
        i += 1;
    }
    r
}

/// `n` in decimal.
pub fn decimal(n: usize) -> (r: String)
    ensures
        r@ == digits(n as nat, 10),
{
    format_digits(n as u64, 10)
}

/// A signed integer in decimal, with a leading `-` when it is negative.
pub open spec fn signed_digits(n: int) -> Seq<char> {
    if n < 0 {
        seq!['-'] + digits((-n) as nat, 10)
    } else {
        digits(n as nat, 10)
    }
}

/// `n` in decimal, as `format!` writes an `i32` with `{}`.
pub fn signed_decimal(n: i32) -> (r: String)
    ensures
        r@ == signed_digits(n as int),
{
    if n < 0 {
        let magnitude: u64 = (0i64 - (n as i64)) as u64;
        let digits_text = format_digits(magnitude, 10);
        let mut r = String::new();
        push_char(&mut r, '-');
        append_str(&mut r, digits_text.as_str());
        assert(r@ =~= signed_digits(n as int));
        r
    } else {
        format_digits(n as u64, 10)
    }
}

/// `n` in lower-case hexadecimal.
pub fn lower_hex(n: u64) -> (r: String)
    ensures
        r@ == digits(n as nat, 16),
{
    format_digits(n, 16)
}

/// Whether `a` and `b` hold the same characters.
pub fn str_equal(a: &str, b: &str) -> (r: bool)
    ensures
        r == (a@ == b@),
{
    let x = chars_of(a);
    let y = chars_of(b);
    slices_equal(x.as_slice(), y.as_slice())
}

/// Whether `a` and `b` hold the same characters.
pub fn slices_equal(a: &[char], b: &[char]) -> (r: bool)
    ensures
        r == (a@ == b@),
{
    if a.len() != b.len() {
        return false;
    }
    let mut i: usize = 0;
    while i < a.len()
        invariant
            a.len() == b.len(),
            i <= a.len(),
            forall|j: int| 0 <= j < i ==> a@[j] == b@[j],
        decreases a.len() - i,
    {
        if a[i] != b[i] {
            return false;
        }
        i += 1;
    }
    assert(a@ =~= b@);
    true
}

/// The texts of some owned strings.
pub open spec fn string_views(items: Seq<String>) -> Seq<Seq<char>> {
    items.map_values(|s: String| s@)
}

/// A string with the characters of `s`.
pub fn string_of(s: &str) -> (r: String)
    ensures
        r@ == s@,
{
    String::from_str(s)
}

/// Whether `c` has the Unicode `White_Space` property, which is what
/// `char::is_whitespace` decides: the controls from tab to carriage return,
/// space, next line, no-break space, ogham space mark, the spaces from en
/// quad to hair space, line and paragraph separator, narrow no-break space,
/// medium mathematical space and ideographic space.
pub open spec fn is_whitespace(c: char) -> bool {
    let u = c as u32;
    ||| 0x9 <= u <= 0xd
    ||| u == 0x20
    ||| u == 0x85
    ||| u == 0xa0
    ||| u == 0x1680
    ||| 0x2000 <= u <= 0x200a
    ||| u == 0x2028
    ||| u == 0x2029
    ||| u == 0x202f
    ||| u == 0x205f
    ||| u == 0x3000
}

/// Whether `c` is whitespace, by the rule of `is_whitespace`.
pub fn char_is_whitespace(c: char) -> (r: bool)
    ensures
        r == is_whitespace(c),
{
    let u = c as u32;
    (0x9 <= u && u <= 0xd) || u == 0x20 || u == 0x85 || u == 0xa0 || u == 0x1680 || (0x2000 <= u
        && u <= 0x200a) || u == 0x2028 || u == 0x2029 || u == 0x202f || u == 0x205f || u == 0x3000
}

/// The position just past the leading whitespace of `s[from..to]`.
pub open spec fn trim_start_index(s: Seq<char>, from: int, to: int) -> int
    decreases to - from,
{
    if from < to && is_whitespace(s[from]) {
        trim_start_index(s, from + 1, to)
    } else {
        from
    }
}

/// The position of the end of `s[from..to]` without its trailing whitespace.
pub open spec fn trim_end_index(s: Seq<char>, from: int, to: int) -> int
    decreases to - from,
{
    if from < to && is_whitespace(s[to - 1]) {
        trim_end_index(s, from, to - 1)
    } else {
        to
    }
}

/// `s` without leading and trailing whitespace, as `str::trim` gives it.
pub open spec fn spec_trim(s: Seq<char>) -> Seq<char> {
    let start = trim_start_index(s, 0, s.len() as int);
    let end = trim_end_index(s, start, s.len() as int);
    s.subrange(start, end)
}

/// The bounds of `s[from..to]` without leading and trailing whitespace.
pub fn trim_bounds(s: &[char], from: usize, to: usize) -> (r: (usize, usize))
    requires
        from <= to <= s.len(),
    ensures
        r.0 == trim_start_index(s@, from as int, to as int),
        r.1 == trim_end_index(s@, r.0 as int, to as int),
        from <= r.0 <= r.1 <= to,
{
    let mut start = from;
    while start < to && char_is_whitespace(s[start])
        invariant
            from <= start <= to <= s.len(),
            trim_start_index(s@, from as int, to as int) == trim_start_index(s@, start as int, to as int),
        decreases to - start,
    {
        start += 1;
    }
    let mut end = to;
    while end > start && char_is_whitespace(s[end - 1])
        invariant
            start <= end <= to <= s.len(),
            trim_start_index(s@, from as int, to as int) == start,
            trim_end_index(s@, start as int, to as int) == trim_end_index(s@, start as int, end as int),
        decreases end,
    {
        end -= 1;
    }
    (start, end)
}

} // verus!
