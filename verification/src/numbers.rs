//! Numbers: the fixed-point scalar used throughout the crate, and the
//! parsers for the two numeric grammars of the format.
//!
//! The object layer accepts one optional sign (`-` for integers, `+` or `-`
//! for reals). The content-stream layer is more permissive: any run of
//! interleaved `+`/`-` prefixes is accepted, and the resulting sign is the
//! parity of the `-` characters in the run.
//!
//! A real `d.d`, `d.` or `.d` is held exactly as a count of micro-units
//! (millionths); fractional digits beyond the sixth are dropped.

use vstd::prelude::*;

pub use crate::scan::parse_digits_u64;

use crate::scan::{
    spec_digits_end, spec_digits_val, spec_is_digit, lemma_digits_end_props,
    lemma_digits_end_mid,
};

verus! {

/// Micro-units per whole unit.
pub const MICRO: i64 = 1000000;

/// Largest magnitude, in micro-units, that a content-stream number may have.
pub const NUMBER_LIMIT: i64 = 1000000000000000;

/// Largest magnitude, in micro-units, that an object-layer real may have.
pub const REAL_LIMIT: i64 = 9223372036853999999;

/// A quantity in micro-units: `micros == 1_500_000` stands for 1.5.
#[derive(Clone, Copy, PartialEq, Eq, Structural, Debug)]
pub struct Fixed {
    pub micros: i64,
}

impl Fixed {
    /// The whole number `v`, as micro-units.
    pub fn from_int(v: i64) -> (r: Fixed)
        requires
            -9223372036854 <= v <= 9223372036854,
        ensures
            r.micros == v * 1000000,
    {
        Fixed { micros: v * 1000000 }
    }

    pub fn from_micros(micros: i64) -> (r: Fixed)
        ensures
            r.micros == micros,
    {
        Fixed { micros }
    }

}

pub open spec fn spec_pow10(k: nat) -> nat
    decreases k,
{
    if k == 0 {
        1
    } else {
        10 * spec_pow10((k - 1) as nat)
    }
}

/// Unfolds the powers of ten a proof needs.
pub proof fn lemma_pow10_table()
    ensures
        spec_pow10(0) == 1,
        spec_pow10(1) == 10,
        spec_pow10(2) == 100,
        spec_pow10(3) == 1000,
        spec_pow10(4) == 10000,
        spec_pow10(5) == 100000,
        spec_pow10(6) == 1000000,
{
    assert(spec_pow10(0) == 1);
    assert(spec_pow10(1) == 10);
    assert(spec_pow10(2) == 100);
    assert(spec_pow10(3) == 1000);
    assert(spec_pow10(4) == 10000);
    assert(spec_pow10(5) == 100000);
    assert(spec_pow10(6) == 1000000);
}

// ------------------------------------------------------------------
// Signs
// ------------------------------------------------------------------

/// A `-` sign stands at `pos`.
pub open spec fn spec_minus_at(s: Seq<u8>, pos: int) -> bool {
    0 <= pos < s.len() && s[pos] == 45
}

/// A `+` or `-` sign stands at `pos`.
pub open spec fn spec_sign_at(s: Seq<u8>, pos: int) -> bool {
    0 <= pos < s.len() && (s[pos] == 43 || s[pos] == 45)
}

/// First position at or after `pos` that holds neither `+` nor `-`.
pub open spec fn spec_signs_end(s: Seq<u8>, pos: int) -> int
    decreases s.len() - pos when 0 <= pos <= s.len()
{
    if spec_sign_at(s, pos) {
        spec_signs_end(s, pos + 1)
    } else {
        pos
    }
}

/// Number of `-` bytes in `s[pos..end]`.
pub open spec fn spec_minus_count(s: Seq<u8>, pos: int, end: int) -> nat
    decreases end - pos,
{
    if pos >= end {
        0
    } else {
        spec_minus_count(s, pos, end - 1) + if spec_minus_at(s, end - 1) {
            1nat
        } else {
            0nat
        }
    }
}


/// Skips a run of `+`/`-` bytes; returns the first position after the run
/// and whether the count of `-` bytes in the run is odd.
pub fn skip_signs(s: &[u8], pos: usize) -> (r: (usize, bool))
    requires
        pos <= s@.len(),
    ensures
        r.0 == spec_signs_end(s@, pos as int),
        pos <= r.0 <= s@.len(),
        r.1 == (spec_minus_count(s@, pos as int, r.0 as int) % 2 == 1),
{
    let n = s.len();
    let mut i = pos;
    let mut odd = false;
    while i < n && (s[i] == 43 || s[i] == 45)
        invariant
            pos <= i <= n,
            n == s@.len(),
            spec_signs_end(s@, pos as int) == spec_signs_end(s@, i as int),
            odd == (spec_minus_count(s@, pos as int, i as int) % 2 == 1),
        decreases n - i,
    {
        if s[i] == 45 {
            odd = !odd;
        }
        proof {
            assert(spec_minus_count(s@, pos as int, i + 1) == spec_minus_count(
                s@,
                pos as int,
                i as int,
            ) + if spec_minus_at(s@, i as int) {
                1nat
            } else {
                0nat
            });
        }
        i = i + 1;
    }
    (i, odd)
}

// ------------------------------------------------------------------
// Object-layer integers: an optional `-`, then decimal digits.
// ------------------------------------------------------------------

/// Where the digit run of an object-layer integer starts.
pub open spec fn spec_int_digits_start(s: Seq<u8>, pos: int) -> int {
    if spec_minus_at(s, pos) {
        pos + 1
    } else {
        pos
    }
}

/// End of the digit run of an object-layer integer.
pub open spec fn spec_int_end(s: Seq<u8>, pos: int) -> int {
    spec_digits_end(s, spec_int_digits_start(s, pos))
}

/// An object-layer integer (at least one digit) starts at `pos`.
pub open spec fn spec_int_form(s: Seq<u8>, pos: int) -> bool {
    spec_int_end(s, pos) > spec_int_digits_start(s, pos)
}

/// Magnitude of the object-layer integer at `pos`.
pub open spec fn spec_int_mag(s: Seq<u8>, pos: int) -> nat {
    spec_digits_val(s, spec_int_digits_start(s, pos), spec_int_end(s, pos))
}

/// Signed value of the object-layer integer at `pos`.
pub open spec fn spec_int_val(s: Seq<u8>, pos: int) -> int {
    if spec_minus_at(s, pos) {
        -(spec_int_mag(s, pos) as int)
    } else {
        spec_int_mag(s, pos) as int
    }
}

/// Parses an object-layer `i64`: an optional `-`, then decimal digits.
/// Succeeds exactly when the digit run is present and the value fits.
pub fn parse_i64(s: &[u8], pos: usize) -> (r: Option<(usize, i64)>)
    requires
        pos <= s@.len(),
    ensures
        match r {
            Some((end, v)) => {
                &&& spec_int_form(s@, pos as int)
                &&& end == spec_int_end(s@, pos as int)
                &&& v == spec_int_val(s@, pos as int)
                &&& pos < end <= s@.len()
            },
            None => !spec_int_form(s@, pos as int) || spec_int_val(s@, pos as int) < i64::MIN
                || spec_int_val(s@, pos as int) > i64::MAX,
        },
{
    let neg = pos < s.len() && s[pos] == 45;
    let dstart = if neg {
        pos + 1
    } else {
        pos
    };
    match parse_digits_u64(s, dstart) {
        None => {
            proof {
                lemma_digits_end_props(s@, dstart as int);
                if spec_int_form(s@, pos as int) {
                    assert(spec_int_mag(s@, pos as int) > u64::MAX);
                }
            }
            None
        },
        Some((end, mag)) => {
            if neg {
                if mag > 9223372036854775808u64 {
                    None
                } else if mag == 9223372036854775808u64 {
                    Some((end, i64::MIN))
                } else {
                    Some((end, -(mag as i64)))
                }
            } else {
                if mag > i64::MAX as u64 {
                    None
                } else {
                    Some((end, mag as i64))
                }
            }
        },
    }
}

/// Parses a bare digit run into `u64`; the unsigned fields of the format
/// (object numbers, generations, offsets, counts) admit no sign.
pub fn parse_u64(s: &[u8], pos: usize) -> (r: Option<(usize, u64)>)
    requires
        pos <= s@.len(),
    ensures
        match r {
            Some((end, v)) => {
                &&& end == spec_digits_end(s@, pos as int)
                &&& v == spec_digits_val(s@, pos as int, end as int)
                &&& pos < end <= s@.len()
            },
            None => spec_digits_end(s@, pos as int) == pos || spec_digits_val(
                s@,
                pos as int,
                spec_digits_end(s@, pos as int),
            ) > u64::MAX,
        },
{
    parse_digits_u64(s, pos)
}

/// Parses a `u32` field (an object number, a count).
pub fn parse_u32(s: &[u8], pos: usize) -> (r: Option<(usize, u32)>)
    requires
        pos <= s@.len(),
    ensures
        match r {
            Some((end, v)) => {
                &&& end == spec_digits_end(s@, pos as int)
                &&& v == spec_digits_val(s@, pos as int, end as int)
                &&& pos < end <= s@.len()
            },
            None => spec_digits_end(s@, pos as int) == pos || spec_digits_val(
                s@,
                pos as int,
                spec_digits_end(s@, pos as int),
            ) > u32::MAX,
        },
{
    match parse_digits_u64(s, pos) {
        None => None,
        Some((end, v)) => {
            if v > u32::MAX as u64 {
                None
            } else {
                Some((end, v as u32))
            }
        },
    }
}

/// Parses a `u16` field (a generation number).
pub fn parse_u16(s: &[u8], pos: usize) -> (r: Option<(usize, u16)>)
    requires
        pos <= s@.len(),
    ensures
        match r {
            Some((end, v)) => {
                &&& end == spec_digits_end(s@, pos as int)
                &&& v == spec_digits_val(s@, pos as int, end as int)
                &&& pos < end <= s@.len()
            },
            None => spec_digits_end(s@, pos as int) == pos || spec_digits_val(
                s@,
                pos as int,
                spec_digits_end(s@, pos as int),
            ) > u16::MAX,
        },
{
    match parse_digits_u64(s, pos) {
        None => None,
        Some((end, v)) => {
            if v > u16::MAX as u64 {
                None
            } else {
                Some((end, v as u16))
            }
        },
    }
}

/// Parses a `usize` field (a byte offset).
pub fn parse_usize(s: &[u8], pos: usize) -> (r: Option<(usize, usize)>)
    requires
        pos <= s@.len(),
    ensures
        match r {
            Some((end, v)) => {
                &&& end == spec_digits_end(s@, pos as int)
                &&& v == spec_digits_val(s@, pos as int, end as int)
                &&& pos < end <= s@.len()
            },
            None => spec_digits_end(s@, pos as int) == pos || spec_digits_val(
                s@,
                pos as int,
                spec_digits_end(s@, pos as int),
            ) > usize::MAX,
        },
{
    match parse_digits_u64(s, pos) {
        None => None,
        Some((end, v)) => {
            if v > usize::MAX as u64 {
                None
            } else {
                Some((end, v as usize))
            }
        },
    }
}

// ------------------------------------------------------------------
// Reals: `d.d`, `d.` or `.d`, exact in micro-units.
// ------------------------------------------------------------------

/// The real grammar (without its sign) starts at `pos`: either at least one
/// integer digit followed by `.`, or `.` followed by at least one digit.
pub open spec fn spec_real_form(s: Seq<u8>, pos: int) -> bool {
    let ie = spec_digits_end(s, pos);
    if ie > pos {
        ie < s.len() && s[ie] == 46
    } else {
        0 <= pos < s.len() && s[pos] == 46 && spec_digits_end(s, pos + 1) > pos + 1
    }
}

/// Position of the `.` of the unsigned real at `pos`.
pub open spec fn spec_real_dot(s: Seq<u8>, pos: int) -> int {
    spec_digits_end(s, pos)
}

/// End of the unsigned real at `pos` (end of its fractional digit run).
pub open spec fn spec_real_end(s: Seq<u8>, pos: int) -> int {
    spec_digits_end(s, spec_real_dot(s, pos) + 1)
}

/// Contribution of the fractional digit run `s[fs..fe]` in micro-units:
/// the first six fractional digits, scaled; further digits are dropped.
pub open spec fn spec_frac_micros(s: Seq<u8>, fs: int, fe: int) -> nat {
    let take = if fe - fs >= 6 {
        6int
    } else if fe >= fs {
        fe - fs
    } else {
        0int
    };
    spec_digits_val(s, fs, fs + take) * spec_pow10((6 - take) as nat)
}

/// Magnitude of the unsigned real at `pos`, in micro-units.
pub open spec fn spec_real_mag_micros(s: Seq<u8>, pos: int) -> nat {
    spec_digits_val(s, pos, spec_real_dot(s, pos)) * 1000000 + spec_frac_micros(
        s,
        spec_real_dot(s, pos) + 1,
        spec_real_end(s, pos),
    )
}

/// Reads the unsigned real grammar at `pos`. Succeeds exactly when the
/// grammar matches and the magnitude is at most `limit` micro-units.
pub fn parse_unsigned_real(s: &[u8], pos: usize, limit: i64) -> (r: Option<(usize, i64)>)
    requires
        pos <= s@.len(),
        1000000 <= limit <= REAL_LIMIT,
    ensures
        match r {
            Some((end, v)) => {
                &&& spec_real_form(s@, pos as int)
                &&& end == spec_real_end(s@, pos as int)
                &&& v == spec_real_mag_micros(s@, pos as int)
                &&& 0 <= v <= limit
                &&& pos < end <= s@.len()
            },
            None => !spec_real_form(s@, pos as int) || spec_real_mag_micros(s@, pos as int)
                > limit,
        },
{
    let n = s.len();
    proof {
        lemma_digits_end_props(s@, pos as int);
    }
    // integer part
    let (dot, ival): (usize, u64) = match parse_digits_u64(s, pos) {
        Some((ie, iv)) => {
            if !(ie < n && s[ie] == 46) {
                return None;
            }
            (ie, iv)
        },
        None => {
            if pos < n && 48 <= s[pos] && s[pos] <= 57 {
                // digits are present but exceed u64: the magnitude exceeds
                // every permitted limit
                proof {
                    let d = spec_real_dot(s@, pos as int);
                    let m = spec_digits_val(s@, pos as int, d);
                    assert(m > u64::MAX);
                    assert(m * 1000000 > REAL_LIMIT) by (nonlinear_arith)
                        requires
                            m > u64::MAX,
                    ;
                }
                return None;
            }
            if !(pos < n && s[pos] == 46) {
                return None;
            }
            // `.d` form: there must be at least one fractional digit
            if !(pos + 1 < n && 48 <= s[pos + 1] && s[pos + 1] <= 57) {
                proof {
                    lemma_digits_end_props(s@, pos + 1);
                }
                return None;
            }
            proof {
                lemma_digits_end_props(s@, pos + 1);
            }
            (pos, 0u64)
        },
    };
    if ival > 9223372036853u64 {
        proof {
            let p = pos as int;
            assert(spec_digits_val(s@, p, spec_real_dot(s@, p)) == ival);
            assert(spec_real_mag_micros(s@, p) >= ival * 1000000);
            assert(ival * 1000000 > REAL_LIMIT) by (nonlinear_arith)
                requires
                    ival > 9223372036853u64,
            ;
        }
        return None;
    }
    let fs = dot + 1;
    proof {
        lemma_digits_end_props(s@, fs as int);
    }
    let ghost fe = spec_digits_end(s@, fs as int);
    // read up to six fractional digits
    let mut j: usize = 0;
    let mut fval: u64 = 0;
    while j < 6 && fs + j < n && 48 <= s[fs + j] && s[fs + j] <= 57
        invariant
            0 <= j <= 6,
            fs as int + j <= fe,
            pos < fs <= n,
            n == s@.len(),
            fe == spec_digits_end(s@, fs as int),
            fs <= fe <= n,
            fval == spec_digits_val(s@, fs as int, fs + j),
            j == 0 ==> fval == 0,
            j == 1 ==> fval <= 9,
            j == 2 ==> fval <= 99,
            j == 3 ==> fval <= 999,
            j == 4 ==> fval <= 9999,
            j == 5 ==> fval <= 99999,
            j == 6 ==> fval <= 999999,
        decreases 6 - j,
    {
        proof {
            lemma_digits_end_props(s@, fs as int);
            if fs + j == fe {
                assert(!spec_is_digit(s@[fe]));
                assert(false);
            }
        }
        fval = fval * 10 + ((s[fs + j] - 48) as u64);
        proof {
            assert(fval == spec_digits_val(s@, fs as int, fs + j + 1));
        }
        j = j + 1;
    }
    proof {
        lemma_digits_end_props(s@, fs as int);
        if j < 6 {
            // the run of fractional digits ended before six digits
            if fs as int + j < fe {
                assert(spec_is_digit(s@[fs as int + j]));
                assert(false);
            }
        }
    }
    // scale by the remaining decimal places; each arm multiplies by the
    // power of ten that completes six fractional places
    let frac: u64 = if j == 0 {
        0
    } else if j == 1 {
        fval * 100000
    } else if j == 2 {
        fval * 10000
    } else if j == 3 {
        fval * 1000
    } else if j == 4 {
        fval * 100
    } else if j == 5 {
        fval * 10
    } else {
        fval
    };
    proof {
        lemma_pow10_table();
        let take = if fe - fs >= 6 {
            6int
        } else {
            fe - fs
        };
        assert(take == j);
        assert(frac <= 999999);
        let p = spec_pow10((6 - j) as nat);
        assert(frac == fval * p) by (nonlinear_arith)
            requires
                (j == 0 && p == 1000000 && fval == 0 && frac == 0) || (j == 1 && p == 100000
                    && frac == fval * 100000) || (j == 2 && p == 10000 && frac == fval * 10000)
                    || (j == 3 && p == 1000 && frac == fval * 1000) || (j == 4 && p == 100
                    && frac == fval * 100) || (j == 5 && p == 10 && frac == fval * 10) || (j
                    == 6 && p == 1 && frac == fval),
        ;
        assert(frac == spec_frac_micros(s@, fs as int, fe));
    }
    // skip fractional digits beyond the sixth
    let mut end = fs + j;
    proof {
        lemma_digits_end_mid(s@, fs as int, end as int);
    }
    while end < n && 48 <= s[end] && s[end] <= 57
        invariant
            fs <= end <= n,
            n == s@.len(),
            fe == spec_digits_end(s@, fs as int),
            end <= fe,
            spec_digits_end(s@, end as int) == fe,
        decreases n - end,
    {
        proof {
            lemma_digits_end_props(s@, end as int);
        }
        end = end + 1;
    }
    proof {
        lemma_digits_end_props(s@, end as int);
        assert(end == fe);
    }
    let mag: i64 = (ival as i64) * 1000000 + (frac as i64);
    proof {
        assert(mag == spec_real_mag_micros(s@, pos as int));
    }
    if mag > limit {
        return None;
    }
    Some((end, mag))
}

/// Parses an object-layer real: one optional `+` or `-`, then the real
/// grammar. The sign prefix is part of the match only when the grammar
/// follows it.
pub fn parse_real_micros(s: &[u8], pos: usize) -> (r: Option<(usize, i64)>)
    requires
        pos <= s@.len(),
    ensures
        ({
            let start = if spec_sign_at(s@, pos as int) {
                pos + 1
            } else {
                pos as int
            };
            match r {
                Some((end, v)) => {
                    &&& spec_real_form(s@, start)
                    &&& spec_real_mag_micros(s@, start) <= REAL_LIMIT
                    &&& end == spec_real_end(s@, start)
                    &&& v == if spec_minus_at(s@, pos as int) {
                        -(spec_real_mag_micros(s@, start) as int)
                    } else {
                        spec_real_mag_micros(s@, start) as int
                    }
                    &&& pos < end <= s@.len()
                },
                None => !spec_real_form(s@, start) || spec_real_mag_micros(s@, start)
                    > REAL_LIMIT,
            }
        }),
{
    let n = s.len();
    let signed = pos < n && (s[pos] == 43 || s[pos] == 45);
    let neg = pos < n && s[pos] == 45;
    let start = if signed {
        pos + 1
    } else {
        pos
    };
    match parse_unsigned_real(s, start, REAL_LIMIT) {
        None => None,
        Some((end, mag)) => {
            if neg {
                Some((end, -mag))
            } else {
                Some((end, mag))
            }
        },
    }
}

// ------------------------------------------------------------------
// Content-stream numbers: stacked signs, parity of `-` decides.
// ------------------------------------------------------------------

/// Signed value, under the sign parity of the run before `start`.
pub open spec fn spec_apply_parity(s: Seq<u8>, pos: int, start: int, mag: nat) -> int {
    if spec_minus_count(s, pos, start) % 2 == 1 {
        -(mag as int)
    } else {
        mag as int
    }
}

/// Parses a content-stream real: a run of `+`/`-` signs, then the real
/// grammar; the value's sign is the parity of the `-` signs. The magnitude
/// is bounded by `NUMBER_LIMIT`.
pub fn parse_content_real(s: &[u8], pos: usize) -> (r: Option<(usize, i64)>)
    requires
        pos <= s@.len(),
    ensures
        ({
            let start = spec_signs_end(s@, pos as int);
            match r {
                Some((end, v)) => {
                    &&& spec_real_form(s@, start)
                    &&& end == spec_real_end(s@, start)
                    &&& v == spec_apply_parity(
                        s@,
                        pos as int,
                        start,
                        spec_real_mag_micros(s@, start),
                    )
                    &&& -NUMBER_LIMIT <= v <= NUMBER_LIMIT
                    &&& pos < end <= s@.len()
                },
                None => !spec_real_form(s@, spec_signs_end(s@, pos as int))
                    || spec_real_mag_micros(s@, spec_signs_end(s@, pos as int)) > NUMBER_LIMIT,
            }
        }),
{
    let (start, odd) = skip_signs(s, pos);
    match parse_unsigned_real(s, start, NUMBER_LIMIT) {
        None => None,
        Some((end, mag)) => {
            if odd {
                Some((end, -mag))
            } else {
                Some((end, mag))
            }
        },
    }
}

/// Parses a content-stream integer: a run of `+`/`-` signs, then digits;
/// the value's sign is the parity of the `-` signs. The magnitude is
/// bounded by `NUMBER_LIMIT` micro-units once scaled.
pub fn parse_content_int_micros(s: &[u8], pos: usize) -> (r: Option<(usize, i64)>)
    requires
        pos <= s@.len(),
    ensures
        ({
            let start = spec_signs_end(s@, pos as int);
            let de = spec_digits_end(s@, start);
            match r {
                Some((end, v)) => {
                    &&& de > start
                    &&& end == de
                    &&& v == spec_apply_parity(
                        s@,
                        pos as int,
                        start,
                        spec_digits_val(s@, start, de) * 1000000,
                    )
                    &&& -NUMBER_LIMIT <= v <= NUMBER_LIMIT
                    &&& pos < end <= s@.len()
                },
                None => de == spec_signs_end(s@, pos as int) || spec_digits_val(
                    s@,
                    spec_signs_end(s@, pos as int),
                    de,
                ) * 1000000 > NUMBER_LIMIT,
            }
        }),
{
    let (start, odd) = skip_signs(s, pos);
    match parse_digits_u64(s, start) {
        None => {
            proof {
                lemma_digits_end_props(s@, start as int);
                let de = spec_digits_end(s@, start as int);
                if de > start {
                    let m = spec_digits_val(s@, start as int, de);
                    assert(m > u64::MAX);
                    assert(m * 1000000 > NUMBER_LIMIT) by (nonlinear_arith)
                        requires
                            m > u64::MAX,
                    ;
                }
            }
            None
        },
        Some((end, mag)) => {
            if mag > 1000000000u64 {
                proof {
                    assert(mag * 1000000 > NUMBER_LIMIT) by (nonlinear_arith)
                        requires
                            mag > 1000000000u64,
                    ;
                }
                None
            } else {
                let v = (mag as i64) * 1000000;
                if odd {
                    Some((end, -v))
                } else {
                    Some((end, v))
                }
            }
        },
    }
}

/// Where the content-stream number at `pos` ends: its sign run, then the
/// real grammar when it matches, else its digit run.
pub open spec fn spec_cn_end(s: Seq<u8>, pos: int) -> int {
    let st = spec_signs_end(s, pos);
    if spec_real_form(s, st) {
        spec_real_end(s, st)
    } else {
        spec_digits_end(s, st)
    }
}

/// The value of the content-stream number at `pos`, in micro-units, with
/// the parity of its `-` signs applied.
pub open spec fn spec_cn_val_micros(s: Seq<u8>, pos: int) -> int {
    let st = spec_signs_end(s, pos);
    let mag: int = if spec_real_form(s, st) {
        spec_real_mag_micros(s, st) as int
    } else {
        (spec_digits_val(s, st, spec_digits_end(s, st)) * 1000000) as int
    };
    if spec_minus_count(s, pos, st) % 2 == 1 {
        -mag
    } else {
        mag
    }
}

/// A content-stream number that fits the limit stands at `pos`: a sign
/// run, then the real grammar within bounds, or else a digit run within
/// bounds.
pub open spec fn spec_cn_present(s: Seq<u8>, pos: int) -> bool {
    let st = spec_signs_end(s, pos);
    if spec_real_form(s, st) {
        spec_real_mag_micros(s, st) <= NUMBER_LIMIT
    } else {
        let de = spec_digits_end(s, st);
        de > st && spec_digits_val(s, st, de) * 1000000 <= NUMBER_LIMIT
    }
}

/// Parses a content-stream number: the real grammar when it matches after
/// the signs, else the integer grammar. Either way the result is in
/// micro-units with the parity sign applied; the parse succeeds exactly
/// when such a number stands at `pos`.
pub fn parse_content_number(s: &[u8], pos: usize) -> (r: Option<(usize, i64)>)
    requires
        pos <= s@.len(),
    ensures
        r is Some <==> spec_cn_present(s@, pos as int),
        ({
            let start = spec_signs_end(s@, pos as int);
            match r {
                Some((end, v)) => {
                    &&& -NUMBER_LIMIT <= v <= NUMBER_LIMIT
                    &&& pos < end <= s@.len()
                    &&& v == spec_cn_val_micros(s@, pos as int)
                    &&& end == spec_cn_end(s@, pos as int)
                    &&& if spec_real_form(s@, start) {
                        end == spec_real_end(s@, start) && v == spec_apply_parity(
                            s@,
                            pos as int,
                            start,
                            spec_real_mag_micros(s@, start),
                        )
                    } else {
                        end == spec_digits_end(s@, start) && v == spec_apply_parity(
                            s@,
                            pos as int,
                            start,
                            spec_digits_val(s@, start, spec_digits_end(s@, start)) * 1000000,
                        )
                    }
                },
                None => {
                    let de = spec_digits_end(s@, start);
                    if spec_real_form(s@, start) {
                        spec_real_mag_micros(s@, start) > NUMBER_LIMIT
                    } else {
                        de == start || spec_digits_val(s@, start, de) * 1000000 > NUMBER_LIMIT
                    }
                },
            }
        }),
{
    let (start, _odd) = skip_signs(s, pos);
    // decide which grammar applies before committing
    let de_probe = parse_digits_u64(s, start);
    let n = s.len();
    let real_here: bool = match de_probe {
        Some((ie, _)) => ie < n && s[ie] == 46,
        None => {
            if start < n && 48 <= s[start] && s[start] <= 57 {
                // digit run too large for u64; find where it ends and look
                // for a dot to decide the grammar
                let mut k = start;
                while k < n && 48 <= s[k] && s[k] <= 57
                    invariant
                        start <= k <= n,
                        n == s@.len(),
                        spec_digits_end(s@, start as int) == spec_digits_end(s@, k as int),
                    decreases n - k,
                {
                    proof {
                        lemma_digits_end_props(s@, k as int);
                    }
                    k = k + 1;
                }
                proof {
                    lemma_digits_end_props(s@, k as int);
                }
                k < n && s[k] == 46
            } else {
                start < n && s[start] == 46 && start + 1 < n && 48 <= s[start + 1] && s[start
                    + 1] <= 57
            }
        },
    };
    proof {
        lemma_digits_end_props(s@, start as int);
        if start < s@.len() && s@[start as int] == 46 {
            lemma_digits_end_props(s@, start + 1);
        }
    }
    if real_here {
        parse_content_real(s, pos)
    } else {
        parse_content_int_micros(s, pos)
    }
}

} // verus!
