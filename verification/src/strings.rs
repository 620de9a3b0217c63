//! Decoders for the three escaped byte-string forms of the format: names
//! with `#xx` escapes, literal strings with backslash escapes, and hex
//! strings with an optional odd final digit.
//!
//! Each decoder is a spec function over a region `[pos, end)` of the input,
//! an exec function proved equal to it, and the boundary laws that hold of
//! the decoding.

use vstd::prelude::*;

use crate::scan::{spec_is_hex_digit, spec_is_oct_digit, spec_is_regular};

verus! {

/// Value of a hex digit byte; 0 for any other byte.
pub open spec fn spec_hex_val(b: u8) -> u8 {
    if 48 <= b && b <= 57 {
        (b - 48) as u8
    } else if 65 <= b && b <= 70 {
        (b - 55) as u8
    } else if 97 <= b && b <= 102 {
        (b - 87) as u8
    } else {
        0
    }
}

pub fn hex_val(b: u8) -> (r: u8)
    ensures
        r == spec_hex_val(b),
{
    if 48 <= b && b <= 57 {
        b - 48
    } else if 65 <= b && b <= 70 {
        b - 55
    } else if 97 <= b && b <= 102 {
        b - 87
    } else {
        0
    }
}

// ------------------------------------------------------------------
// Hex strings
// ------------------------------------------------------------------

/// Decoding of the hex-string region `s[pos..end)`: hex digits are taken in
/// pairs; a final odd digit counts as if followed by `0`; the first byte
/// that is not a hex digit ends the decoding.
pub open spec fn spec_decode_hex(s: Seq<u8>, pos: int, end: int) -> Seq<u8>
    decreases end - pos,
{
    if pos < 0 || pos >= end || end > s.len() {
        Seq::empty()
    } else if spec_is_hex_digit(s[pos]) {
        if pos + 1 < end && spec_is_hex_digit(s[pos + 1]) {
            seq![(spec_hex_val(s[pos]) * 16 + spec_hex_val(s[pos + 1])) as u8]
                + spec_decode_hex(s, pos + 2, end)
        } else {
            seq![(spec_hex_val(s[pos]) * 16) as u8] + spec_decode_hex(s, pos + 1, end)
        }
    } else {
        Seq::empty()
    }
}

/// Decodes the hex-string region `s[pos..end)`.
pub fn decode_hex_region(s: &[u8], pos: usize, end: usize) -> (r: Vec<u8>)
    requires
        pos <= end <= s@.len(),
    ensures
        r@ == spec_decode_hex(s@, pos as int, end as int),
{
    let mut out: Vec<u8> = Vec::new();
    let mut i = pos;
    loop
        invariant
            pos <= i <= end <= s@.len(),
            spec_decode_hex(s@, pos as int, end as int) == out@ + spec_decode_hex(
                s@,
                i as int,
                end as int,
            ),
        decreases end - i,
    {
        if i >= end {
            proof {
                assert(spec_decode_hex(s@, i as int, end as int) =~= Seq::<u8>::empty());
                assert(out@ + Seq::<u8>::empty() =~= out@);
            }
            return out;
        }
        let b = s[i];
        let b_hex = (48 <= b && b <= 57) || (65 <= b && b <= 70) || (97 <= b && b <= 102);
        if !b_hex {
            proof {
                assert(out@ + spec_decode_hex(s@, i as int, end as int) =~= out@);
            }
            return out;
        }
        if i + 1 < end {
            let c = s[i + 1];
            let c_hex = (48 <= c && c <= 57) || (65 <= c && c <= 70) || (97 <= c && c <= 102);
            if c_hex {
                out.push(hex_val(b) * 16 + hex_val(c));
                i = i + 2;
                proof {
                    assert(spec_decode_hex(s@, pos as int, end as int) == out@
                        + spec_decode_hex(s@, i as int, end as int));
                }
                continue;
            }
        }
        out.push(hex_val(b) * 16);
        i = i + 1;
        proof {
            assert(spec_decode_hex(s@, pos as int, end as int) == out@ + spec_decode_hex(
                s@,
                i as int,
                end as int,
            ));
        }
    }
}

/// A hex string of odd length decodes exactly as the same digits followed
/// by one `0`: the lone final digit is padded.
pub proof fn lemma_hex_odd_padding(s: Seq<u8>, pos: int, end: int)
    requires
        0 <= pos <= end <= s.len(),
        (end - pos) % 2 == 1,
        end < s.len() ==> s[end] == 48,
        end + 1 <= s.len(),
        forall|i: int| pos <= i < end ==> spec_is_hex_digit(s[i]),
    ensures
        spec_decode_hex(s, pos, end + 1) == spec_decode_hex(s, pos, end),
    decreases end - pos,
{
    if end - pos == 1 {
        assert(spec_decode_hex(s, pos + 2, end + 1) =~= Seq::<u8>::empty());
        assert(spec_decode_hex(s, pos + 1, end) =~= Seq::<u8>::empty());
        assert(spec_decode_hex(s, pos, end + 1) =~= seq![(spec_hex_val(s[pos]) * 16) as u8]);
        assert(spec_decode_hex(s, pos, end) =~= seq![(spec_hex_val(s[pos]) * 16) as u8]);
    } else {
        lemma_hex_odd_padding(s, pos + 2, end);
    }
}

// ------------------------------------------------------------------
// Literal strings
// ------------------------------------------------------------------

/// Decoding of the literal-string region `s[pos..end)`. A backslash starts
/// an escape: `\(`, `\)` and `\\` produce the escaped byte; `\n`, `\r\n`
/// and `\r` are line continuations that vanish together with the byte that
/// follows them; one to three octal digits produce a byte (modulo 256);
/// any other byte after a backslash leaves the backslash itself in place.
pub open spec fn spec_decode_lit(s: Seq<u8>, pos: int, end: int) -> Seq<u8>
    decreases end - pos,
{
    if pos < 0 || pos >= end || end > s.len() {
        Seq::empty()
    } else if s[pos] == 92 && pos + 1 < end {
        let c = s[pos + 1];
        if c == 40 || c == 41 || c == 92 {
            seq![c] + spec_decode_lit(s, pos + 2, end)
        } else if c == 110 && pos + 2 < end {
            seq![s[pos + 2]] + spec_decode_lit(s, pos + 3, end)
        } else if c == 114 && pos + 3 < end && s[pos + 2] == 92 && s[pos + 3] == 110 && pos + 4
            < end {
            seq![s[pos + 4]] + spec_decode_lit(s, pos + 5, end)
        } else if c == 114 && pos + 2 < end && !(pos + 3 < end && s[pos + 2] == 92 && s[pos + 3]
            == 110 && pos + 4 < end) {
            seq![s[pos + 2]] + spec_decode_lit(s, pos + 3, end)
        } else if spec_is_oct_digit(c) {
            if pos + 3 < end && spec_is_oct_digit(s[pos + 2]) && spec_is_oct_digit(s[pos + 3]) {
                seq![(((c - 48) * 64 + (s[pos + 2] - 48) * 8 + (s[pos + 3] - 48)) % 256) as u8]
                    + spec_decode_lit(s, pos + 4, end)
            } else if pos + 2 < end && spec_is_oct_digit(s[pos + 2]) {
                seq![((c - 48) * 8 + (s[pos + 2] - 48)) as u8] + spec_decode_lit(s, pos + 3, end)
            } else {
                seq![(c - 48) as u8] + spec_decode_lit(s, pos + 2, end)
            }
        } else {
            seq![92u8] + spec_decode_lit(s, pos + 1, end)
        }
    } else {
        seq![s[pos]] + spec_decode_lit(s, pos + 1, end)
    }
}

/// Decodes the literal-string region `s[pos..end)`.
pub fn decode_literal_region(s: &[u8], pos: usize, end: usize) -> (r: Vec<u8>)
    requires
        pos <= end <= s@.len(),
    ensures
        r@ == spec_decode_lit(s@, pos as int, end as int),
{
    let mut out: Vec<u8> = Vec::new();
    let mut i = pos;
    loop
        invariant
            pos <= i <= end <= s@.len(),
            spec_decode_lit(s@, pos as int, end as int) == out@ + spec_decode_lit(
                s@,
                i as int,
                end as int,
            ),
        decreases end - i,
    {
        if i >= end {
            proof {
                assert(out@ + spec_decode_lit(s@, i as int, end as int) =~= out@);
            }
            return out;
        }
        if s[i] == 92 && i + 1 < end {
            let c = s[i + 1];
            if c == 40 || c == 41 || c == 92 {
                out.push(c);
                i = i + 2;
            } else if c == 110 && end - i > 2 {
                out.push(s[i + 2]);
                i = i + 3;
            } else if c == 114 && end - i > 3 && s[i + 2] == 92 && s[i + 3] == 110 && end - i
                > 4 {
                out.push(s[i + 4]);
                i = i + 5;
            } else if c == 114 && end - i > 2 && !(end - i > 3 && s[i + 2] == 92 && s[i + 3]
                == 110 && end - i > 4) {
                out.push(s[i + 2]);
                i = i + 3;
            } else if 48 <= c && c <= 55 {
                if end - i > 3 && 48 <= s[i + 2] && s[i + 2] <= 55 && 48 <= s[i + 3] && s[i + 3]
                    <= 55 {
                    let v: u16 = (c - 48) as u16 * 64 + (s[i + 2] - 48) as u16 * 8 + (s[i + 3]
                        - 48) as u16;
                    out.push((v % 256) as u8);
                    i = i + 4;
                } else if end - i > 2 && 48 <= s[i + 2] && s[i + 2] <= 55 {
                    out.push((c - 48) * 8 + (s[i + 2] - 48));
                    i = i + 3;
                } else {
                    out.push(c - 48);
                    i = i + 2;
                }
            } else {
                out.push(92);
                i = i + 1;
            }
        } else {
            out.push(s[i]);
            i = i + 1;
        }
        proof {
            assert(spec_decode_lit(s@, pos as int, end as int) == out@ + spec_decode_lit(
                s@,
                i as int,
                end as int,
            ));
        }
    }
}

/// A literal string without backslashes decodes to itself: balanced nested
/// parentheses need no escaping.
pub proof fn lemma_literal_no_escape(s: Seq<u8>, pos: int, end: int)
    requires
        0 <= pos <= end <= s.len(),
        forall|i: int| pos <= i < end ==> s[i] != 92,
    ensures
        spec_decode_lit(s, pos, end) == s.subrange(pos, end),
    decreases end - pos,
{
    if pos < end {
        lemma_literal_no_escape(s, pos + 1, end);
        assert(spec_decode_lit(s, pos, end) =~= s.subrange(pos, end));
    } else {
        assert(spec_decode_lit(s, pos, end) =~= s.subrange(pos, end));
    }
}

/// An octal escape of three digits `\NNN` decodes to the byte
/// `N*64 + N*8 + N` (modulo 256), and decoding continues after it.
pub proof fn lemma_octal_escape(s: Seq<u8>, pos: int, end: int)
    requires
        0 <= pos,
        pos + 4 <= end <= s.len(),
        s[pos] == 92,
        spec_is_oct_digit(s[pos + 1]),
        spec_is_oct_digit(s[pos + 2]),
        spec_is_oct_digit(s[pos + 3]),
    ensures
        spec_decode_lit(s, pos, end) == seq![(((s[pos + 1] - 48) * 64 + (s[pos + 2] - 48) * 8 + (
        s[pos + 3] - 48)) % 256) as u8] + spec_decode_lit(s, pos + 4, end),
{
}

// ------------------------------------------------------------------
// Names
// ------------------------------------------------------------------

/// End of the name region that starts at `pos`: regular bytes other than
/// `#`, and `#` followed by two hex digits, belong to the name; anything
/// else ends it.
pub open spec fn spec_name_end(s: Seq<u8>, pos: int) -> int
    decreases s.len() - pos,
{
    if pos < 0 || pos >= s.len() {
        pos
    } else if s[pos] == 35 {
        if pos + 2 < s.len() && spec_is_hex_digit(s[pos + 1]) && spec_is_hex_digit(s[pos + 2]) {
            spec_name_end(s, pos + 3)
        } else {
            pos
        }
    } else if spec_is_regular(s[pos]) {
        spec_name_end(s, pos + 1)
    } else {
        pos
    }
}

/// Decoding of the name starting at `pos`: `#xx` escapes become the byte
/// `xx` names; other regular bytes stand for themselves.
pub open spec fn spec_name_decode(s: Seq<u8>, pos: int) -> Seq<u8>
    decreases s.len() - pos,
{
    if pos < 0 || pos >= s.len() {
        Seq::empty()
    } else if s[pos] == 35 {
        if pos + 2 < s.len() && spec_is_hex_digit(s[pos + 1]) && spec_is_hex_digit(s[pos + 2]) {
            seq![(spec_hex_val(s[pos + 1]) * 16 + spec_hex_val(s[pos + 2])) as u8]
                + spec_name_decode(s, pos + 3)
        } else {
            Seq::empty()
        }
    } else if spec_is_regular(s[pos]) {
        seq![s[pos]] + spec_name_decode(s, pos + 1)
    } else {
        Seq::empty()
    }
}

pub proof fn lemma_name_end_bounds(s: Seq<u8>, pos: int)
    requires
        0 <= pos <= s.len(),
    ensures
        pos <= spec_name_end(s, pos) <= s.len(),
    decreases s.len() - pos,
{
    if pos < s.len() {
        if s[pos] == 35 {
            if pos + 2 < s.len() && spec_is_hex_digit(s[pos + 1]) && spec_is_hex_digit(
                s[pos + 2],
            ) {
                lemma_name_end_bounds(s, pos + 3);
            }
        } else if spec_is_regular(s[pos]) {
            lemma_name_end_bounds(s, pos + 1);
        }
    }
}

/// Reads the name region starting at `pos` (after the `/`), returning the
/// position after it and the decoded bytes.
pub fn read_name_region(s: &[u8], pos: usize) -> (r: (usize, Vec<u8>))
    requires
        pos <= s@.len(),
    ensures
        r.0 == spec_name_end(s@, pos as int),
        r.1@ == spec_name_decode(s@, pos as int),
        pos <= r.0 <= s@.len(),
{
    let n = s.len();
    let mut out: Vec<u8> = Vec::new();
    let mut i = pos;
    loop
        invariant
            pos <= i <= n,
            n == s@.len(),
            spec_name_end(s@, pos as int) == spec_name_end(s@, i as int),
            spec_name_decode(s@, pos as int) == out@ + spec_name_decode(s@, i as int),
        decreases n - i,
    {
        proof {
            lemma_name_end_bounds(s@, i as int);
        }
        if i >= n {
            proof {
                assert(out@ + spec_name_decode(s@, i as int) =~= out@);
            }
            return (i, out);
        }
        let b = s[i];
        if b == 35 {
            if n - i > 2 {
                let h1 = s[i + 1];
                let h2 = s[i + 2];
                let h1_hex = (48 <= h1 && h1 <= 57) || (65 <= h1 && h1 <= 70) || (97 <= h1 && h1
                    <= 102);
                let h2_hex = (48 <= h2 && h2 <= 57) || (65 <= h2 && h2 <= 70) || (97 <= h2 && h2
                    <= 102);
                if h1_hex && h2_hex {
                    out.push(hex_val(h1) * 16 + hex_val(h2));
                    i = i + 3;
                    proof {
                        assert(spec_name_decode(s@, pos as int) == out@ + spec_name_decode(
                            s@,
                            i as int,
                        ));
                    }
                    continue;
                }
            }
            proof {
                assert(out@ + spec_name_decode(s@, i as int) =~= out@);
            }
            return (i, out);
        }
        if is_regular_byte(b) {
            out.push(b);
            i = i + 1;
            proof {
                assert(spec_name_decode(s@, pos as int) == out@ + spec_name_decode(s@, i as int));
            }
        } else {
            proof {
                assert(out@ + spec_name_decode(s@, i as int) =~= out@);
            }
            return (i, out);
        }
    }
}

fn is_regular_byte(b: u8) -> (r: bool)
    ensures
        r == spec_is_regular(b),
{
    crate::scan::is_regular(b)
}

/// A `#` escape inside a name decodes to the byte its two hex digits
/// spell: in particular `#23` decodes to `#` itself.
pub proof fn lemma_name_hash_escape(s: Seq<u8>, pos: int)
    requires
        0 <= pos,
        pos + 2 < s.len(),
        s[pos] == 35,
        spec_is_hex_digit(s[pos + 1]),
        spec_is_hex_digit(s[pos + 2]),
    ensures
        spec_name_decode(s, pos) == seq![(spec_hex_val(s[pos + 1]) * 16 + spec_hex_val(
            s[pos + 2],
        )) as u8] + spec_name_decode(s, pos + 3),
        s[pos + 1] == 50 && s[pos + 2] == 51 ==> spec_name_decode(s, pos) == seq![35u8]
            + spec_name_decode(s, pos + 3),
{
}

/// A run of regular bytes without `#` passes through a name unchanged;
/// what follows decodes independently.
pub proof fn lemma_name_plain_prefix(s: Seq<u8>, pos: int, k: int)
    requires
        0 <= pos <= k <= s.len(),
        forall|i: int| pos <= i < k ==> spec_is_regular(s[i]) && s[i] != 35,
    ensures
        spec_name_decode(s, pos) == s.subrange(pos, k) + spec_name_decode(s, k),
    decreases k - pos,
{
    if pos < k {
        lemma_name_plain_prefix(s, pos + 1, k);
        assert(spec_name_decode(s, pos) =~= s.subrange(pos, k) + spec_name_decode(s, k));
    } else {
        assert(spec_name_decode(s, pos) =~= s.subrange(pos, k) + spec_name_decode(s, k));
    }
}

} // verus!
