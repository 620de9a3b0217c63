//! Byte-level scanners: character classes, end-of-line handling, whitespace
//! and comment skipping, keyword matching, digit runs, and the
//! balanced-delimiter taker used for literal strings and dictionaries.
//!
//! Every exec scanner has a spec twin over `Seq<u8>`; the exec function is
//! proved to return exactly what the twin describes.

use vstd::prelude::*;

verus! {

/// The six PDF whitespace bytes: space, tab, line feed, carriage return,
/// NUL and form feed.
pub open spec fn spec_is_whitespace(b: u8) -> bool {
    b == 32 || b == 9 || b == 10 || b == 13 || b == 0 || b == 12
}

/// The PDF delimiter bytes: `( ) < > [ ] { } / %`.
pub open spec fn spec_is_delimiter(b: u8) -> bool {
    b == 40 || b == 41 || b == 60 || b == 62 || b == 91 || b == 93 || b == 123 || b == 125
        || b == 47 || b == 37
}

/// A regular byte is neither whitespace nor a delimiter.
pub open spec fn spec_is_regular(b: u8) -> bool {
    !spec_is_whitespace(b) && !spec_is_delimiter(b)
}

pub fn is_whitespace(c: u8) -> (r: bool)
    ensures
        r == spec_is_whitespace(c),
{
    c == 32 || c == 9 || c == 10 || c == 13 || c == 0 || c == 12
}

pub fn is_delimiter(c: u8) -> (r: bool)
    ensures
        r == spec_is_delimiter(c),
{
    c == 40 || c == 41 || c == 60 || c == 62 || c == 91 || c == 93 || c == 123 || c == 125
        || c == 47 || c == 37
}

pub fn is_regular(c: u8) -> (r: bool)
    ensures
        r == spec_is_regular(c),
{
    !is_whitespace(c) && !is_delimiter(c)
}

/// True exactly of the minus sign byte.
pub fn minus(input: u8) -> (r: bool)
    ensures
        r == (input == 45),
{
    input == 45
}

/// Number of bytes of the end-of-line marker starting at `pos`:
/// 2 for CRLF, 1 for a lone LF or CR, 0 when none starts there.
pub open spec fn spec_eol_len(s: Seq<u8>, pos: int) -> int {
    if 0 <= pos && pos < s.len() {
        if s[pos] == 13 {
            if pos + 1 < s.len() && s[pos + 1] == 10 {
                2
            } else {
                1
            }
        } else if s[pos] == 10 {
            1
        } else {
            0
        }
    } else {
        0
    }
}

/// Length of the end-of-line marker at `pos` (0 when there is none).
pub fn eol_len(s: &[u8], pos: usize) -> (r: usize)
    ensures
        r == spec_eol_len(s@, pos as int),
{
    if pos < s.len() {
        if s[pos] == 13 {
            if pos + 1 < s.len() && s[pos + 1] == 10 {
                2
            } else {
                1
            }
        } else if s[pos] == 10 {
            1
        } else {
            0
        }
    } else {
        0
    }
}

/// True when `input` begins with an end-of-line marker.
pub fn is_eol(input: &[u8]) -> (r: bool)
    ensures
        r == (spec_eol_len(input@, 0) > 0),
{
    eol_len(input, 0) > 0
}

/// First position at or after `pos` that holds CR or LF, or the length of
/// `s` when no such byte follows.
pub open spec fn spec_find_line_break(s: Seq<u8>, pos: int) -> int
    decreases s.len() - pos,
{
    if pos < 0 {
        spec_find_line_break(s, 0)
    } else if pos >= s.len() {
        s.len() as int
    } else if s[pos] == 13 || s[pos] == 10 {
        pos
    } else {
        spec_find_line_break(s, pos + 1)
    }
}

/// Position after skipping all whitespace and `%` comments from `pos`.
/// A comment runs to the next end of line; one that reaches the end of the
/// input without a line break is not consumed, matching the scanner that
/// demands a terminating end of line before treating `%` as a comment.
pub open spec fn spec_skip_ws(s: Seq<u8>, pos: int) -> int
    decreases s.len() - pos,
    via spec_skip_ws_decreases
{
    if pos < 0 || pos >= s.len() {
        pos
    } else if spec_is_whitespace(s[pos]) {
        spec_skip_ws(s, pos + 1)
    } else if s[pos] == 37 {
        let brk = spec_find_line_break(s, pos + 1);
        if brk >= s.len() {
            pos
        } else {
            spec_skip_ws(s, brk + spec_eol_len(s, brk))
        }
    } else {
        pos
    }
}

#[via_fn]
proof fn spec_skip_ws_decreases(s: Seq<u8>, pos: int) {
    if 0 <= pos && pos < s.len() && !spec_is_whitespace(s[pos]) && s[pos] == 37 {
        lemma_find_line_break_bounds(s, pos + 1);
    }
}

proof fn lemma_find_line_break_bounds(s: Seq<u8>, pos: int)
    requires
        0 <= pos <= s.len(),
    ensures
        pos <= spec_find_line_break(s, pos) <= s.len(),
        spec_find_line_break(s, pos) < s.len() ==> {
            let brk = spec_find_line_break(s, pos);
            s[brk] == 13 || s[brk] == 10
        },
    decreases s.len() - pos,
{
    if pos < s.len() && !(s[pos] == 13 || s[pos] == 10) {
        lemma_find_line_break_bounds(s, pos + 1);
    }
}

pub proof fn lemma_skip_ws_bounds(s: Seq<u8>, pos: int)
    requires
        0 <= pos <= s.len(),
    ensures
        pos <= spec_skip_ws(s, pos) <= s.len(),
    decreases s.len() - pos,
{
    if pos < s.len() {
        if spec_is_whitespace(s[pos]) {
            lemma_skip_ws_bounds(s, pos + 1);
        } else if s[pos] == 37 {
            let brk = spec_find_line_break(s, pos + 1);
            lemma_find_line_break_bounds(s, pos + 1);
            if brk < s.len() {
                lemma_skip_ws_bounds(s, brk + spec_eol_len(s, brk));
            }
        }
    }
}

/// Skips whitespace and comments, returning the first position that starts
/// neither.
pub fn skip_ws(s: &[u8], pos: usize) -> (r: usize)
    requires
        pos <= s@.len(),
    ensures
        r == spec_skip_ws(s@, pos as int),
        pos <= r <= s@.len(),
{
    let mut i = pos;
    loop
        invariant
            pos <= i <= s@.len(),
            spec_skip_ws(s@, pos as int) == spec_skip_ws(s@, i as int),
        decreases s@.len() - i,
    {
        proof {
            lemma_skip_ws_bounds(s@, i as int);
        }
        if i >= s.len() {
            return i;
        }
        let b = s[i];
        if is_whitespace(b) {
            i = i + 1;
        } else if b == 37 {
            // scan to the line break that ends the comment
            let mut j = i + 1;
            while j < s.len() && s[j] != 13 && s[j] != 10
                invariant
                    i + 1 <= j <= s@.len(),
                    spec_find_line_break(s@, i + 1) == spec_find_line_break(s@, j as int),
                decreases s@.len() - j,
            {
                j = j + 1;
            }
            if j >= s.len() {
                // unterminated comment: not consumed
                return i;
            }
            i = j + eol_len(s, j);
        } else {
            return i;
        }
    }
}

/// True when `tag` occurs in `s` starting exactly at `pos`.
pub open spec fn spec_tag_at(s: Seq<u8>, pos: int, tag: Seq<u8>) -> bool {
    &&& 0 <= pos
    &&& pos + tag.len() <= s.len()
    &&& s.subrange(pos, pos + tag.len()) == tag
}

/// Tests whether `tag` occurs at `pos`.
pub fn tag_at(s: &[u8], pos: usize, tag: &[u8]) -> (r: bool)
    ensures
        r == spec_tag_at(s@, pos as int, tag@),
{
    let n = s.len();
    if pos > n || n - pos < tag.len() {
        proof {
            assert(!spec_tag_at(s@, pos as int, tag@));
        }
        return false;
    }
    let mut k: usize = 0;
    while k < tag.len()
        invariant
            0 <= k <= tag@.len(),
            pos + tag@.len() <= n,
            n == s@.len(),
            forall|m: int| 0 <= m < k ==> s@[pos + m] == tag@[m],
        decreases tag@.len() - k,
    {
        if s[pos + k] != tag[k] {
            proof {
                assert(s@.subrange(pos as int, pos + tag@.len())[k as int] != tag@[k as int]);
            }
            return false;
        }
        k = k + 1;
    }
    proof {
        assert(s@.subrange(pos as int, pos + tag@.len()) =~= tag@);
    }
    true
}

/// Upper-case ASCII letters folded to lower case; all other bytes unchanged.
pub open spec fn spec_lower(b: u8) -> u8 {
    if 65 <= b && b <= 90 {
        (b + 32) as u8
    } else {
        b
    }
}

/// True when `tag` occurs at `pos` up to ASCII case.
pub open spec fn spec_tag_at_nocase(s: Seq<u8>, pos: int, tag: Seq<u8>) -> bool {
    &&& 0 <= pos
    &&& pos + tag.len() <= s.len()
    &&& forall|m: int| 0 <= m < tag.len() ==> spec_lower(s[pos + m]) == spec_lower(tag[m])
}

/// Tests whether `tag` occurs at `pos`, ignoring ASCII case.
pub fn tag_at_nocase(s: &[u8], pos: usize, tag: &[u8]) -> (r: bool)
    ensures
        r == spec_tag_at_nocase(s@, pos as int, tag@),
{
    let n = s.len();
    if pos > n || n - pos < tag.len() {
        return false;
    }
    let mut k: usize = 0;
    while k < tag.len()
        invariant
            0 <= k <= tag@.len(),
            pos + tag@.len() <= n,
            n == s@.len(),
            forall|m: int| 0 <= m < k ==> spec_lower(s@[pos + m]) == spec_lower(tag@[m]),
        decreases tag@.len() - k,
    {
        let a = s[pos + k];
        let b = tag[k];
        let la = if 65 <= a && a <= 90 {
            a + 32
        } else {
            a
        };
        let lb = if 65 <= b && b <= 90 {
            b + 32
        } else {
            b
        };
        if la != lb {
            return false;
        }
        k = k + 1;
    }
    true
}

pub open spec fn spec_is_digit(b: u8) -> bool {
    48 <= b && b <= 57
}

pub open spec fn spec_is_hex_digit(b: u8) -> bool {
    spec_is_digit(b) || (65 <= b && b <= 70) || (97 <= b && b <= 102)
}

pub open spec fn spec_is_oct_digit(b: u8) -> bool {
    48 <= b && b <= 55
}

/// First position at or after `pos` that does not hold a decimal digit.
pub open spec fn spec_digits_end(s: Seq<u8>, pos: int) -> int
    decreases s.len() - pos,
{
    if pos < 0 || pos >= s.len() {
        pos
    } else if spec_is_digit(s[pos]) {
        spec_digits_end(s, pos + 1)
    } else {
        pos
    }
}

/// Numeric value of the digit at position `i`, or 0 out of range.
pub open spec fn spec_digit_of(s: Seq<u8>, i: int) -> nat {
    if 0 <= i && i < s.len() && spec_is_digit(s[i]) {
        (s[i] - 48) as nat
    } else {
        0
    }
}

/// Value of the decimal digit run `s[pos..end]`.
pub open spec fn spec_digits_val(s: Seq<u8>, pos: int, end: int) -> nat
    decreases end - pos,
{
    if end <= pos {
        0
    } else {
        spec_digits_val(s, pos, end - 1) * 10 + spec_digit_of(s, end - 1)
    }
}

pub proof fn lemma_digits_end_props(s: Seq<u8>, pos: int)
    requires
        0 <= pos <= s.len(),
    ensures
        pos <= spec_digits_end(s, pos) <= s.len(),
        forall|i: int| pos <= i < spec_digits_end(s, pos) ==> spec_is_digit(s[i]),
        spec_digits_end(s, pos) < s.len() ==> !spec_is_digit(s[spec_digits_end(s, pos)]),
    decreases s.len() - pos,
{
    if pos < s.len() && spec_is_digit(s[pos]) {
        lemma_digits_end_props(s, pos + 1);
    }
}

/// The digit run ending at `spec_digits_end` is the same from any position
/// inside the run.
pub proof fn lemma_digits_end_mid(s: Seq<u8>, pos: int, mid: int)
    requires
        0 <= pos <= mid <= spec_digits_end(s, pos),
        pos <= s.len(),
    ensures
        spec_digits_end(s, mid) == spec_digits_end(s, pos),
    decreases mid - pos,
{
    lemma_digits_end_props(s, pos);
    if pos < mid {
        lemma_digits_end_mid(s, pos + 1, mid);
    }
}

/// A longer digit run never has a smaller value.
pub proof fn lemma_digits_val_monotone(s: Seq<u8>, pos: int, e1: int, e2: int)
    requires
        pos <= e1 <= e2,
    ensures
        spec_digits_val(s, pos, e1) <= spec_digits_val(s, pos, e2),
    decreases e2 - e1,
{
    if e1 < e2 {
        lemma_digits_val_monotone(s, pos, e1, e2 - 1);
        assert(spec_digits_val(s, pos, e2) == spec_digits_val(s, pos, e2 - 1) * 10
            + spec_digit_of(s, e2 - 1));
    }
}

/// Reads the decimal digit run starting at `pos` and returns the position
/// after it together with its value. Fails when no digit starts at `pos` or
/// the value does not fit in `u64`.
pub fn parse_digits_u64(s: &[u8], pos: usize) -> (r: Option<(usize, u64)>)
    requires
        pos <= s@.len(),
    ensures
        match r {
            Some((end, v)) => {
                &&& end == spec_digits_end(s@, pos as int)
                &&& v == spec_digits_val(s@, pos as int, end as int)
                &&& pos < end <= s@.len()
            },
            None => spec_digits_end(s@, pos as int) == pos || spec_digits_val(
                s@,
                pos as int,
                spec_digits_end(s@, pos as int),
            ) > u64::MAX,
        },
{
    let n = s.len();
    proof {
        lemma_digits_end_props(s@, pos as int);
    }
    let ghost end = spec_digits_end(s@, pos as int);
    if pos >= n || !(48 <= s[pos] && s[pos] <= 57) {
        return None;
    }
    let mut i = pos;
    let mut acc: u64 = 0;
    while i < n && 48 <= s[i] && s[i] <= 57
        invariant
            pos <= i <= end <= n,
            n == s@.len(),
            acc == spec_digits_val(s@, pos as int, i as int),
            end == spec_digits_end(s@, pos as int),
            i < end ==> spec_is_digit(s@[i as int]),
            forall|m: int| pos <= m < end ==> spec_is_digit(s@[m]),
            end < n ==> !spec_is_digit(s@[end as int]),
        decreases n - i,
    {
        let d = (s[i] - 48) as u64;
        if acc > (u64::MAX - d) / 10 {
            proof {
                assert(acc * 10 + d > u64::MAX) by (nonlinear_arith)
                    requires
                        acc > (u64::MAX - d) / 10,
                        d <= 9,
                ;
                assert(spec_digits_val(s@, pos as int, i + 1) == acc * 10 + d);
                lemma_digits_val_monotone(s@, pos as int, i + 1, end);
            }
            return None;
        }
        proof {
            assert(acc * 10 + d <= u64::MAX) by (nonlinear_arith)
                requires
                    acc <= (u64::MAX - d) / 10,
                    d <= 9,
            ;
        }
        acc = acc * 10 + d;
        i = i + 1;
    }
    proof {
        assert(i == end);
    }
    Some((i, acc))
}

/// The first position at or after `pos` where `tag` occurs, if any.
pub open spec fn spec_find_tag(s: Seq<u8>, pos: int, tag: Seq<u8>) -> Option<int>
    decreases s.len() - pos,
{
    if pos < 0 || pos + tag.len() > s.len() {
        None
    } else if spec_tag_at(s, pos, tag) {
        Some(pos)
    } else if pos >= s.len() {
        None
    } else {
        spec_find_tag(s, pos + 1, tag)
    }
}

/// A first match at `pos + k` within the suffix pins `spec_find_tag`.
pub proof fn lemma_find_tag_some(s: Seq<u8>, pos: int, tag: Seq<u8>, k: int)
    requires
        0 <= pos,
        0 <= k,
        spec_tag_at(s, pos + k, tag),
        forall|j: int| 0 <= j < k ==> !(#[trigger] spec_tag_at(s, pos + j, tag)),
    ensures
        spec_find_tag(s, pos, tag) == Some(pos + k),
    decreases k,
{
    if k == 0 {
    } else {
        assert(!spec_tag_at(s, pos + 0, tag));
        assert forall|j: int| 0 <= j < k - 1 implies !(#[trigger] spec_tag_at(
            s,
            pos + 1 + j,
            tag,
        )) by {
            assert(!spec_tag_at(s, pos + (j + 1), tag));
        }
        lemma_find_tag_some(s, pos + 1, tag, k - 1);
    }
}

/// No match anywhere after `pos` means `spec_find_tag` finds nothing.
pub proof fn lemma_find_tag_none(s: Seq<u8>, pos: int, tag: Seq<u8>)
    requires
        0 <= pos,
        forall|j: int| 0 <= j ==> !(#[trigger] spec_tag_at(s, pos + j, tag)),
    ensures
        spec_find_tag(s, pos, tag) is None,
    decreases s.len() - pos,
{
    if !(pos + tag.len() > s.len()) && pos < s.len() {
        assert(!spec_tag_at(s, pos + 0, tag));
        assert forall|j: int| 0 <= j implies !(#[trigger] spec_tag_at(s, pos + 1 + j, tag)) by {
            assert(!spec_tag_at(s, pos + (j + 1), tag));
        }
        lemma_find_tag_none(s, pos + 1, tag);
    }
}

/// A tag inside a suffix window is the same tag in the whole buffer.
pub proof fn lemma_tag_in_window(s: Seq<u8>, cs: int, w: Seq<u8>, tag: Seq<u8>, j: int)
    requires
        0 <= cs <= s.len(),
        w == s.subrange(cs, s.len() as int),
        0 <= j,
    ensures
        spec_tag_at(w, j, tag) == spec_tag_at(s, cs + j, tag),
{
    if j + tag.len() <= w.len() {
        assert(w.subrange(j, j + tag.len()) =~= s.subrange(cs + j, cs + j + tag.len()));
    }
}

/// Some needle of `needles` occurs in `s` starting exactly at `i`.
pub open spec fn spec_matches_any(s: Seq<u8>, needles: Seq<&[u8]>, i: int) -> bool {
    exists|k: int| 0 <= k < needles.len() && spec_tag_at(s, i, needles[k]@)
}

/// Returns the first position in `haystack` where any of the given needles
/// occurs, or `None` if none occurs.
pub fn find_subsequence(haystack: &[u8], needles: Vec<&[u8]>) -> (r: Option<usize>)
    requires
        forall|k: int| 0 <= k < needles@.len() ==> needles@[k]@.len() > 0,
    ensures
        match r {
            Some(i) => spec_matches_any(haystack@, needles@, i as int) && forall|j: int|
                0 <= j < i ==> !spec_matches_any(haystack@, needles@, j),
            None => forall|j: int| !spec_matches_any(haystack@, needles@, j),
        },
{
    let n = haystack.len();
    let mut i: usize = 0;
    while i < n
        invariant
            0 <= i <= n,
            n == haystack@.len(),
            forall|k: int| 0 <= k < needles@.len() ==> needles@[k]@.len() > 0,
            forall|j: int| 0 <= j < i ==> !spec_matches_any(haystack@, needles@, j),
        decreases n - i,
    {
        let mut k: usize = 0;
        while k < needles.len()
            invariant
                0 <= k <= needles@.len(),
                i < n,
                n == haystack@.len(),
                forall|m: int| 0 <= m < k ==> !spec_tag_at(haystack@, i as int, needles@[m]@),
                forall|j: int| 0 <= j < i ==> !spec_matches_any(haystack@, needles@, j),
            decreases needles@.len() - k,
        {
            if tag_at(haystack, i, needles[k]) {
                proof {
                    assert(spec_tag_at(haystack@, i as int, needles@[k as int]@));
                    assert(spec_matches_any(haystack@, needles@, i as int));
                }
                return Some(i);
            }
            k = k + 1;
        }
        i = i + 1;
    }
    proof {
        assert forall|j: int| !spec_matches_any(haystack@, needles@, j) by {
            if 0 <= j < n {
            } else {
                assert forall|k: int| 0 <= k < needles@.len() implies !spec_tag_at(
                    haystack@,
                    j,
                    needles@[k]@,
                ) by {}
            }
        }
    }
    None
}

/// Result of scanning for the first unmatched closer from `pos`, honouring
/// nesting of `open`/`close` pairs starting at depth `depth`. `Some(end)`
/// is the position of the unmatched closer, or the input length when every
/// opened pair was closed; `None` means the input ended inside an open pair.
pub open spec fn spec_balanced_end(
    s: Seq<u8>,
    pos: int,
    open: Seq<u8>,
    close: Seq<u8>,
    depth: int,
) -> Option<int>
    decreases s.len() - pos,
{
    if pos < 0 || pos >= s.len() {
        if depth == 0 {
            Some(s.len() as int)
        } else {
            None
        }
    } else if open.len() > 0 && spec_tag_at(s, pos, open) {
        spec_balanced_end(s, pos + open.len(), open, close, depth + 1)
    } else if close.len() > 0 && spec_tag_at(s, pos, close) {
        if depth == 0 {
            Some(pos)
        } else {
            spec_balanced_end(s, pos + close.len(), open, close, depth - 1)
        }
    } else {
        spec_balanced_end(s, pos + 1, open, close, depth)
    }
}

pub proof fn lemma_balanced_end_bounds(
    s: Seq<u8>,
    pos: int,
    open: Seq<u8>,
    close: Seq<u8>,
    depth: int,
)
    requires
        0 <= pos <= s.len(),
    ensures
        match spec_balanced_end(s, pos, open, close, depth) {
            Some(end) => pos <= end <= s.len(),
            None => true,
        },
    decreases s.len() - pos,
{
    if pos < s.len() {
        if open.len() > 0 && spec_tag_at(s, pos, open) {
            lemma_balanced_end_bounds(s, pos + open.len(), open, close, depth + 1);
        } else if close.len() > 0 && spec_tag_at(s, pos, close) {
            if depth != 0 {
                lemma_balanced_end_bounds(s, pos + close.len(), open, close, depth - 1);
            }
        } else {
            lemma_balanced_end_bounds(s, pos + 1, open, close, depth);
        }
    }
}

/// Scans from `pos` for the first closer not matched by a nested opener.
/// Returns the position just before that closer (the closer itself is not
/// consumed), or the input length when every opened pair was closed, or
/// `None` when pairs stay open at the end of the input.
pub fn take_until_unmatched(opening: &[u8], closing: &[u8], input: &[u8], pos: usize) -> (r: Option<
    usize,
>)
    requires
        pos <= input@.len(),
        opening@.len() > 0,
        closing@.len() > 0,
    ensures
        match r {
            Some(end) => Some(end as int) == spec_balanced_end(
                input@,
                pos as int,
                opening@,
                closing@,
                0,
            ) && pos <= end <= input@.len(),
            None => spec_balanced_end(input@, pos as int, opening@, closing@, 0) is None,
        },
{
    let n = input.len();
    let mut i = pos;
    let mut depth: usize = 0;
    loop
        invariant
            pos <= i <= n,
            n == input@.len(),
            opening@.len() > 0,
            closing@.len() > 0,
            depth <= i - pos,
            spec_balanced_end(input@, pos as int, opening@, closing@, 0) == spec_balanced_end(
                input@,
                i as int,
                opening@,
                closing@,
                depth as int,
            ),
        decreases n - i,
    {
        proof {
            lemma_balanced_end_bounds(input@, i as int, opening@, closing@, depth as int);
        }
        if i >= n {
            if depth == 0 {
                return Some(n);
            } else {
                return None;
            }
        }
        if tag_at(input, i, opening) {
            if n - i < opening.len() {
                proof {
                    assert(false);
                }
            }
            i = i + opening.len();
            depth = depth + 1;
        } else if tag_at(input, i, closing) {
            if depth == 0 {
                return Some(i);
            }
            i = i + closing.len();
            depth = depth - 1;
        } else {
            i = i + 1;
        }
    }
}

} // verus!
