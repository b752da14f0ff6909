//! Wildcard patterns for import paths.
//!
//! Paths are handled as raw bytes, so that paths that are not valid Unicode
//! can still be matched. The only wildcard is `*`, which matches zero or more
//! elements.
use vstd::prelude::*;

verus! {

/// The byte that stands for "zero or more characters" in a pattern.
pub const ASTERISK: u8 = 42u8;

/// `text[i..]` is matched by `pattern[j..]`, where `wildcard` matches any
/// run of zero or more elements and every other element matches itself.
pub open spec fn matches_from(text: Seq<u8>, pattern: Seq<u8>, wildcard: u8, i: int, j: int) -> bool
    decreases pattern.len() - j, text.len() - i,
{
    if j >= pattern.len() {
        i >= text.len()
    } else if pattern[j] == wildcard {
        matches_from(text, pattern, wildcard, i, j + 1) || (i < text.len() && matches_from(
            text,
            pattern,
            wildcard,
            i + 1,
            j,
        ))
    } else {
        i < text.len() && text[i] == pattern[j] && matches_from(
            text,
            pattern,
            wildcard,
            i + 1,
            j + 1,
        )
    }
}

/// The whole of `text` is matched by the whole of `pattern`.
pub open spec fn wildcard_match(text: Seq<u8>, pattern: Seq<u8>, wildcard: u8) -> bool {
    matches_from(text, pattern, wildcard, 0, 0)
}

/// `pattern[j..j + len]` holds no wildcard.
pub open spec fn literal_segment(pattern: Seq<u8>, wildcard: u8, j: int, len: int) -> bool {
    forall|q: int| j <= q < j + len ==> #[trigger] pattern[q] != wildcard
}

/// `text[i..i + len] == pattern[j..j + len]`.
pub open spec fn segment_equal(text: Seq<u8>, pattern: Seq<u8>, i: int, j: int, len: int) -> bool {
    forall|q: int| i <= q < i + len ==> #[trigger] text[q] == pattern[q + (j - i)]
}

/// Some suffix of `text` starting at or after `i` is matched by `pattern[j..]`.
pub open spec fn matches_some_suffix(text: Seq<u8>, pattern: Seq<u8>, wildcard: u8, i: int, j: int) -> bool {
    exists|k: int| i <= k <= text.len() && #[trigger] matches_from(text, pattern, wildcard, k, j)
}

/// A wildcard at `j` matches `text[i..]` exactly when the rest of the pattern
/// matches some suffix of it.
proof fn lemma_star_expands(text: Seq<u8>, pattern: Seq<u8>, wildcard: u8, i: int, j: int)
    requires
        0 <= i <= text.len(),
        0 <= j < pattern.len(),
        pattern[j] == wildcard,
    ensures
        matches_from(text, pattern, wildcard, i, j) == matches_some_suffix(text, pattern, wildcard, i, j + 1),
    decreases text.len() - i,
{
    if matches_from(text, pattern, wildcard, i, j + 1) {
        assert(matches_some_suffix(text, pattern, wildcard, i, j + 1));
    }
    if i < text.len() {
        lemma_star_expands(text, pattern, wildcard, i + 1, j);
        if matches_some_suffix(text, pattern, wildcard, i, j + 1) {
            let k = choose|k: int| i <= k <= text.len() && #[trigger] matches_from(text, pattern, wildcard, k, j + 1);
            if k > i {
                assert(matches_some_suffix(text, pattern, wildcard, i + 1, j + 1));
            }
        }
        if matches_some_suffix(text, pattern, wildcard, i + 1, j + 1) {
            let k = choose|k: int| i + 1 <= k <= text.len() && #[trigger] matches_from(text, pattern, wildcard, k, j + 1);
            assert(matches_from(text, pattern, wildcard, k, j + 1));
        }
    } else {
        if matches_some_suffix(text, pattern, wildcard, i, j + 1) {
            let k = choose|k: int| i <= k <= text.len() && #[trigger] matches_from(text, pattern, wildcard, k, j + 1);
            assert(k == i);
        }
    }
}

/// A wildcard that matches a later suffix also matches an earlier one.
proof fn lemma_star_monotone(text: Seq<u8>, pattern: Seq<u8>, wildcard: u8, i: int, k: int, j: int)
    requires
        0 <= i <= k <= text.len(),
        0 <= j < pattern.len(),
        pattern[j] == wildcard,
        matches_from(text, pattern, wildcard, k, j),
    ensures
        matches_from(text, pattern, wildcard, i, j),
{
    lemma_star_expands(text, pattern, wildcard, k, j);
    lemma_star_expands(text, pattern, wildcard, i, j);
    let m = choose|m: int| k <= m <= text.len() && #[trigger] matches_from(text, pattern, wildcard, m, j + 1);
    assert(matches_from(text, pattern, wildcard, m, j + 1));
}

/// A run of `len` pattern elements without wildcards must be matched element
/// by element.
proof fn lemma_literal_segment(text: Seq<u8>, pattern: Seq<u8>, wildcard: u8, i: int, j: int, len: int)
    requires
        0 <= i <= text.len(),
        0 <= j,
        0 <= len,
        j + len <= pattern.len(),
        literal_segment(pattern, wildcard, j, len),
    ensures
        matches_from(text, pattern, wildcard, i, j) == (i + len <= text.len() && segment_equal(
            text,
            pattern,
            i,
            j,
            len,
        ) && matches_from(text, pattern, wildcard, i + len, j + len)),
    decreases len,
{
    if len > 0 {
        assert(pattern[j] != wildcard);
        if i < text.len() {
            lemma_literal_segment(text, pattern, wildcard, i + 1, j + 1, len - 1);
        }
        if i + len <= text.len() && segment_equal(text, pattern, i, j, len) {
            assert(text[i] == pattern[i + (j - i)]);
            assert(segment_equal(text, pattern, i + 1, j + 1, len - 1)) by {
                assert forall|q: int| i + 1 <= q < i + 1 + (len - 1) implies #[trigger] text[q] == pattern[q + ((j + 1) - (i + 1))] by {
                    assert(text[q] == pattern[q + (j - i)]);
                }
            }
        }
        if matches_from(text, pattern, wildcard, i, j) {
            assert(segment_equal(text, pattern, i, j, len)) by {
                assert forall|q: int| i <= q < i + len implies #[trigger] text[q] == pattern[q + (j - i)] by {
                    if q > i {
                        assert(text[q] == pattern[q + ((j + 1) - (i + 1))]);
                    }
                }
            }
        }
    }
}

/// The empty remainder of a text is matched exactly by a run of wildcards.
proof fn lemma_empty_text(text: Seq<u8>, pattern: Seq<u8>, wildcard: u8, j: int)
    requires
        0 <= j <= pattern.len(),
    ensures
        matches_from(text, pattern, wildcard, text.len() as int, j) == (forall|q: int|
            j <= q < pattern.len() ==> pattern[q] == wildcard),
    decreases pattern.len() - j,
{
    if j < pattern.len() {
        lemma_empty_text(text, pattern, wildcard, j + 1);
    }
}

/// Whether `pattern` matches the whole of `text`, where `wildcard` matches
/// zero or more elements and every other element matches itself.
///
/// Works by scanning left to right and, on a mismatch, retrying from the most
/// recent wildcard with one more element absorbed by it.
pub fn match_with_wildcards(text: &[u8], pattern: &[u8], wildcard: u8) -> (r: bool)
    ensures
        r == wildcard_match(text@, pattern@, wildcard),
{
    let ghost t = text@;
    let ghost p = pattern@;
    let mut text_idx: usize = 0;
    let mut pattern_idx: usize = 0;
    let mut star_idx: Option<usize> = None;
    let mut match_idx: usize = 0;

    while text_idx < text.len()
        invariant
            t == text@,
            p == pattern@,
            text_idx <= text.len(),
            pattern_idx <= pattern.len(),
            match_idx <= text_idx,
            match star_idx {
                None => {
                    &&& text_idx == pattern_idx
                    &&& match_idx == 0
                    &&& literal_segment(p, wildcard, 0, pattern_idx as int)
                    &&& segment_equal(t, p, 0, 0, pattern_idx as int)
                    &&& wildcard_match(t, p, wildcard) == matches_from(
                        t,
                        p,
                        wildcard,
                        text_idx as int,
                        pattern_idx as int,
                    )
                },
                Some(s) => {
                    &&& s < pattern_idx
                    &&& p[s as int] == wildcard
                    &&& text_idx - match_idx == pattern_idx - (s + 1)
                    &&& literal_segment(p, wildcard, s + 1, pattern_idx - (s + 1))
                    &&& segment_equal(t, p, match_idx as int, s + 1, pattern_idx - (s + 1))
                    &&& wildcard_match(t, p, wildcard) == matches_some_suffix(
                        t,
                        p,
                        wildcard,
                        match_idx as int,
                        s + 1,
                    )
                },
            },
        decreases text.len() - match_idx, (text.len() - text_idx) + (pattern.len() - pattern_idx),
    {
        if pattern_idx < pattern.len() && pattern[pattern_idx] == wildcard {
            proof {
                match star_idx {
                    None => {
                        lemma_star_expands(t, p, wildcard, text_idx as int, pattern_idx as int);
                    },
                    Some(s) => {
                        let len = pattern_idx - (s + 1);
                        lemma_star_expands(t, p, wildcard, text_idx as int, pattern_idx as int);
                        if matches_some_suffix(t, p, wildcard, match_idx as int, s + 1) {
                            let k = choose|k: int|
                                match_idx <= k <= t.len() && #[trigger] matches_from(
                                    t,
                                    p,
                                    wildcard,
                                    k,
                                    s + 1,
                                );
                            lemma_literal_segment(t, p, wildcard, k, s + 1, len);
                            lemma_star_monotone(
                                t,
                                p,
                                wildcard,
                                text_idx as int,
                                k + len,
                                pattern_idx as int,
                            );
                        }
                        if matches_from(t, p, wildcard, text_idx as int, pattern_idx as int) {
                            lemma_literal_segment(t, p, wildcard, match_idx as int, s + 1, len);
                            assert(matches_from(t, p, wildcard, match_idx as int, s + 1));
                        }
                    },
                }
            }
            star_idx = Some(pattern_idx);
            match_idx = text_idx;
            pattern_idx += 1;
            proof {
                assert(literal_segment(p, wildcard, pattern_idx as int, 0));
                assert(segment_equal(t, p, match_idx as int, pattern_idx as int, 0));
            }
        } else if pattern_idx < pattern.len() && pattern[pattern_idx] == text[text_idx] {
            proof {
                match star_idx {
                    None => {
                        assert(segment_equal(t, p, 0, 0, pattern_idx + 1)) by {
                            assert forall|q: int| 0 <= q < pattern_idx + 1 implies #[trigger] t[q] == p[q + (0 - 0)] by {
                                if q < pattern_idx {
                                    assert(t[q] == p[q + (0 - 0)]);
                                }
                            }
                        }
                    },
                    Some(s) => {
                        let len = pattern_idx - (s + 1);
                        assert(segment_equal(t, p, match_idx as int, s + 1, len + 1)) by {
                            assert forall|q: int| match_idx <= q < match_idx + len + 1 implies #[trigger] t[q] == p[q + (s + 1 - match_idx)] by {
                                if q < match_idx + len {
                                    assert(t[q] == p[q + (s + 1 - match_idx)]);
                                }
                            }
                        }
                    },
                }
            }
            text_idx += 1;
            pattern_idx += 1;
        } else if let Some(star) = star_idx {
            proof {
                let len = pattern_idx - (star + 1);
                if pattern_idx < pattern.len() {
                    lemma_literal_segment(t, p, wildcard, match_idx as int, star + 1, len + 1);
                    if matches_from(t, p, wildcard, match_idx as int, star + 1) {
                        assert(t[text_idx as int] == p[text_idx + (star + 1 - match_idx)]);
                    }
                } else {
                    lemma_literal_segment(t, p, wildcard, match_idx as int, star + 1, len);
                }
                assert(!matches_from(t, p, wildcard, match_idx as int, star + 1));
                if matches_some_suffix(t, p, wildcard, match_idx as int, star + 1) {
                    let k = choose|k: int|
                        match_idx <= k <= t.len() && #[trigger] matches_from(t, p, wildcard, k, star + 1);
                    assert(k != match_idx);
                    assert(matches_some_suffix(t, p, wildcard, match_idx + 1, star + 1));
                }
                if matches_some_suffix(t, p, wildcard, match_idx + 1, star + 1) {
                    let k = choose|k: int|
                        match_idx + 1 <= k <= t.len() && #[trigger] matches_from(t, p, wildcard, k, star + 1);
                    assert(matches_some_suffix(t, p, wildcard, match_idx as int, star + 1));
                }
            }
            pattern_idx = star + 1;
            match_idx += 1;
            text_idx = match_idx;
            proof {
                assert(literal_segment(p, wildcard, star + 1, 0));
                assert(segment_equal(t, p, match_idx as int, star + 1, 0));
            }
        } else {
            return false;
        }
    }

    proof {
        match star_idx {
            None => {},
            Some(s) => {
                let len = pattern_idx - (s + 1);
                lemma_literal_segment(t, p, wildcard, match_idx as int, s + 1, len);
                if matches_some_suffix(t, p, wildcard, match_idx as int, s + 1) {
                    let k = choose|k: int|
                        match_idx <= k <= t.len() && #[trigger] matches_from(t, p, wildcard, k, s + 1);
                    lemma_literal_segment(t, p, wildcard, k, s + 1, len);
                    assert(k == match_idx);
                }
                if matches_from(t, p, wildcard, text_idx as int, pattern_idx as int) {
                    assert(matches_from(t, p, wildcard, match_idx as int, s + 1));
                }
            },
        }
        assert(wildcard_match(t, p, wildcard) == matches_from(
            t,
            p,
            wildcard,
            t.len() as int,
            pattern_idx as int,
        ));
        lemma_empty_text(t, p, wildcard, pattern_idx as int);
    }

    let ghost first_trailing = pattern_idx;
    while pattern_idx < pattern.len() && pattern[pattern_idx] == wildcard
        invariant
            p == pattern@,
            first_trailing <= pattern_idx <= pattern.len(),
            forall|q: int| first_trailing <= q < pattern_idx ==> p[q] == wildcard,
        decreases pattern.len() - pattern_idx,
    {
        pattern_idx += 1;
    }

    pattern_idx == pattern.len()
}

/// Whether `bytes` holds an asterisk.
pub fn contains_asterisk(bytes: &[u8]) -> (r: bool)
    ensures
        r == bytes@.contains(ASTERISK),
{
    let mut i: usize = 0;
    while i < bytes.len()
        invariant
            i <= bytes.len(),
            forall|q: int| 0 <= q < i ==> bytes@[q] != ASTERISK,
        decreases bytes.len() - i,
    {
        if bytes[i] == ASTERISK {
            assert(bytes@[i as int] == ASTERISK);
            return true;
        }
        i += 1;
    }
    false
}

/// Whether a path, given as its raw bytes, holds a wildcard in any of its
/// components. Separators are never asterisks, so this is the same as the
/// path holding an asterisk anywhere.
pub fn has_glob_pattern(path: &[u8]) -> (r: bool)
    ensures
        r == path@.contains(ASTERISK),
{
    contains_asterisk(path)
}

/// Whether the file name `filename` is matched by the wildcard pattern
/// `pattern` (`*` matches zero or more bytes, case-sensitively).
pub fn match_pattern(filename: &[u8], pattern: &[u8]) -> (r: bool)
    ensures
        r == wildcard_match(filename@, pattern@, ASTERISK),
{
    match_with_wildcards(filename, pattern, ASTERISK)
}

/// The positions, in increasing order, of the directory entries `names`
/// that the file name pattern `pattern` selects. A pattern without any
/// wildcard selects nothing.
pub fn select_glob_matches(names: &Vec<Vec<u8>>, pattern: &[u8]) -> (r: Vec<usize>)
    ensures
        forall|k: int| 0 <= k < r.len() ==> #[trigger] r[k] < names.len(),
        forall|k: int, l: int| 0 <= k < l < r.len() ==> r[k] < r[l],
        forall|i: int|
            0 <= i < names.len() ==> (r@.contains(i as usize) <==> (pattern@.contains(ASTERISK)
                && wildcard_match(#[trigger] names@[i]@, pattern@, ASTERISK))),
{
    let mut selected: Vec<usize> = Vec::new();
    if !contains_asterisk(pattern) {
        return selected;
    }
    let mut i: usize = 0;
    while i < names.len()
        invariant
            i <= names.len(),
            pattern@.contains(ASTERISK),
            forall|k: int| 0 <= k < selected.len() ==> #[trigger] selected[k] < i,
            forall|k: int, l: int| 0 <= k < l < selected.len() ==> selected[k] < selected[l],
            forall|m: int|
                0 <= m < i ==> (selected@.contains(m as usize) <==> wildcard_match(
                    #[trigger] names@[m]@,
                    pattern@,
                    ASTERISK,
                )),
        decreases names.len() - i,
    {
        let ghost before = selected@;
        if match_pattern(names[i].as_slice(), pattern) {
            selected.push(i);
            assert(selected@[selected.len() - 1] == i);
        }
        proof {
            assert forall|m: int| 0 <= m < i + 1 implies (selected@.contains(m as usize) <==> wildcard_match(
                #[trigger] names@[m]@,
                pattern@,
                ASTERISK,
            )) by {
                if m < i {
                    if before.contains(m as usize) {
                        let k = choose|k: int| 0 <= k < before.len() && before[k] == m as usize;
                        assert(selected@[k] == m as usize);
                    }
                    if selected@.contains(m as usize) {
                        let k = choose|k: int| 0 <= k < selected.len() && selected@[k] == m as usize;
                        if k < before.len() {
                            assert(before[k] == m as usize);
                        }
                    }
                } else {
                    if selected@.contains(m as usize) {
                        let k = choose|k: int| 0 <= k < selected.len() && selected@[k] == m as usize;
                        if k < before.len() {
                            assert(before[k] < i);
                        }
                    }
                }
            }
        }
        i += 1;
    }
    selected
}

} // verus!
