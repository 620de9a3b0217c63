//! Parsers for the object layer: keywords, numbers, names, strings,
//! arrays, dictionaries, streams and references, each surrounded by the
//! whitespace-and-comment skipping the format allows.
//!
//! Every parser takes the input buffer and a position, and returns the
//! position after the parse together with the parsed value. Contracts are
//! stated over the spec twins of the scanners and decoders.

use vstd::prelude::*;

use crate::numbers::{
    parse_i64, parse_real_micros, parse_u16, parse_u32, spec_int_end, spec_int_form,
    spec_int_val, spec_minus_at, spec_real_end, spec_real_form, spec_real_mag_micros,
    spec_sign_at, Fixed, REAL_LIMIT,
};
use crate::object::{Dictionary, Object, StringFormat, Stream};
use crate::scan::{
    skip_ws, spec_skip_ws, spec_tag_at, spec_tag_at_nocase, spec_balanced_end, spec_digits_end,
    spec_digits_val, tag_at, tag_at_nocase, take_until_unmatched, spec_matches_any,
    find_subsequence,
};
use crate::strings::{
    decode_hex_region, decode_literal_region, read_name_region, spec_decode_hex,
    spec_decode_lit, spec_name_decode, spec_name_end,
};
use crate::ObjectId;

verus! {

/// The keyword `null` (in any ASCII case) stands at `pos`, after
/// whitespace.
pub open spec fn spec_null_at(s: Seq<u8>, pos: int) -> bool {
    spec_tag_at_nocase(s, spec_skip_ws(s, pos), seq![110u8, 117u8, 108u8, 108u8])
}

/// Parses the `null` keyword; returns the position after it and its
/// trailing whitespace.
pub fn parse_null(s: &[u8], pos: usize) -> (r: Option<usize>)
    requires
        pos <= s@.len(),
    ensures
        match r {
            Some(end) => spec_null_at(s@, pos as int) && end == spec_skip_ws(
                s@,
                spec_skip_ws(s@, pos as int) + 4,
            ) && pos < end <= s@.len(),
            None => !spec_null_at(s@, pos as int),
        },
{
    let w = skip_ws(s, pos);
    let kw = vec![110u8, 117u8, 108u8, 108u8];
    proof {
        assert(kw@ =~= seq![110u8, 117u8, 108u8, 108u8]);
    }
    if tag_at_nocase(s, w, kw.as_slice()) {
        let n = s.len();
        proof {
            assert(w + 4 <= n);
        }
        Some(skip_ws(s, w + 4))
    } else {
        None
    }
}

/// The keyword `true` or `false` (in any ASCII case) stands after the
/// whitespace at `pos`; gives the value it spells.
pub open spec fn spec_boolean_at(s: Seq<u8>, pos: int) -> Option<bool> {
    let w = spec_skip_ws(s, pos);
    if spec_tag_at_nocase(s, w, seq![116u8, 114u8, 117u8, 101u8]) {
        Some(true)
    } else if spec_tag_at_nocase(s, w, seq![102u8, 97u8, 108u8, 115u8, 101u8]) {
        Some(false)
    } else {
        None
    }
}

/// Parses the `true` or `false` keyword.
pub fn parse_boolean(s: &[u8], pos: usize) -> (r: Option<(usize, bool)>)
    requires
        pos <= s@.len(),
    ensures
        match r {
            Some((end, v)) => {
                &&& spec_boolean_at(s@, pos as int) == Some(v)
                &&& end == spec_skip_ws(
                    s@,
                    spec_skip_ws(s@, pos as int) + if v {
                        4int
                    } else {
                        5int
                    },
                )
                &&& pos < end <= s@.len()
            },
            None => spec_boolean_at(s@, pos as int) is None,
        },
{
    let w = skip_ws(s, pos);
    let kw_true = vec![116u8, 114u8, 117u8, 101u8];
    let kw_false = vec![102u8, 97u8, 108u8, 115u8, 101u8];
    proof {
        assert(kw_true@ =~= seq![116u8, 114u8, 117u8, 101u8]);
        assert(kw_false@ =~= seq![102u8, 97u8, 108u8, 115u8, 101u8]);
    }
    let n = s.len();
    if tag_at_nocase(s, w, kw_true.as_slice()) {
        proof {
            assert(w + 4 <= n);
        }
        Some((skip_ws(s, w + 4), true))
    } else if tag_at_nocase(s, w, kw_false.as_slice()) {
        proof {
            assert(w + 5 <= n);
        }
        Some((skip_ws(s, w + 5), false))
    } else {
        None
    }
}

/// Parses a whitespace-wrapped object-layer integer.
pub fn parse_integer(s: &[u8], pos: usize) -> (r: Option<(usize, i64)>)
    requires
        pos <= s@.len(),
    ensures
        ({
            let w = spec_skip_ws(s@, pos as int);
            match r {
                Some((end, v)) => {
                    &&& spec_int_form(s@, w)
                    &&& v == spec_int_val(s@, w)
                    &&& end == spec_skip_ws(s@, spec_int_end(s@, w))
                    &&& pos < end <= s@.len()
                },
                None => !spec_int_form(s@, w) || spec_int_val(s@, w) < i64::MIN || spec_int_val(
                    s@,
                    w,
                ) > i64::MAX,
            }
        }),
{
    let w = skip_ws(s, pos);
    match parse_i64(s, w) {
        None => None,
        Some((end, v)) => Some((skip_ws(s, end), v)),
    }
}

/// Parses a whitespace-wrapped object-layer real into micro-units.
pub fn parse_real(s: &[u8], pos: usize) -> (r: Option<(usize, Fixed)>)
    requires
        pos <= s@.len(),
    ensures
        ({
            let w = spec_skip_ws(s@, pos as int);
            let start = if spec_sign_at(s@, w) {
                w + 1
            } else {
                w
            };
            match r {
                Some((end, v)) => {
                    &&& spec_real_form(s@, start)
                    &&& v.micros == if spec_minus_at(s@, w) {
                        -(spec_real_mag_micros(s@, start) as int)
                    } else {
                        spec_real_mag_micros(s@, start) as int
                    }
                    &&& end == spec_skip_ws(s@, spec_real_end(s@, start))
                    &&& pos < end <= s@.len()
                },
                None => !spec_real_form(s@, start) || spec_real_mag_micros(s@, start)
                    > REAL_LIMIT,
            }
        }),
{
    let w = skip_ws(s, pos);
    match parse_real_micros(s, w) {
        None => None,
        Some((end, v)) => Some((skip_ws(s, end), Fixed::from_micros(v))),
    }
}

/// A name after the whitespace at `pos`: a `/`, then the name region.
pub open spec fn spec_name_at(s: Seq<u8>, pos: int) -> bool {
    let w = spec_skip_ws(s, pos);
    w < s.len() && s[w] == 47
}

/// Parses a whitespace-wrapped name: `/` followed by the name region,
/// `#xx` escapes expanded. The empty name is permitted.
pub fn parse_name_obj(s: &[u8], pos: usize) -> (r: Option<(usize, Vec<u8>)>)
    requires
        pos <= s@.len(),
    ensures
        ({
            let w = spec_skip_ws(s@, pos as int);
            match r {
                Some((end, v)) => {
                    &&& spec_name_at(s@, pos as int)
                    &&& v@ == spec_name_decode(s@, w + 1)
                    &&& end == spec_skip_ws(s@, spec_name_end(s@, w + 1))
                    &&& pos < end <= s@.len()
                },
                None => !spec_name_at(s@, pos as int),
            }
        }),
{
    let w = skip_ws(s, pos);
    if w < s.len() && s[w] == 47 {
        let (nend, name) = read_name_region(s, w + 1);
        Some((skip_ws(s, nend), name))
    } else {
        None
    }
}

/// Parses an object id: two whitespace-wrapped unsigned integers, the
/// object number and the generation number. Fails exactly when either
/// digit run is missing or overflows its field.
pub fn parse_object_id(s: &[u8], pos: usize) -> (r: Option<(usize, ObjectId)>)
    requires
        pos <= s@.len(),
    ensures
        ({
            let w = spec_skip_ws(s@, pos as int);
            let ne = spec_digits_end(s@, w);
            match r {
                Some((end, id)) => {
                    &&& ne > w
                    &&& id.0 == spec_digits_val(s@, w, ne)
                    &&& ({
                        let g = spec_skip_ws(s@, ne);
                        let ge = spec_digits_end(s@, g);
                        &&& ge > g
                        &&& id.1 == spec_digits_val(s@, g, ge)
                        &&& end == spec_skip_ws(s@, ge)
                    })
                    &&& pos < end <= s@.len()
                },
                None => ne == w || spec_digits_val(s@, w, ne) > u32::MAX || ({
                    let g = spec_skip_ws(s@, ne);
                    let ge = spec_digits_end(s@, g);
                    ge == g || spec_digits_val(s@, g, ge) > u16::MAX
                }),
            }
        }),
{
    let w = skip_ws(s, pos);
    match parse_u32(s, w) {
        None => None,
        Some((ne, num)) => {
            let g = skip_ws(s, ne);
            match parse_u16(s, g) {
                None => None,
                Some((ge, gen)) => Some((skip_ws(s, ge), (num, gen))),
            }
        },
    }
}

/// A reference `N G R` with numbers that fit stands at `pos`.
pub open spec fn spec_reference_present(s: Seq<u8>, pos: int) -> bool {
    let w = spec_skip_ws(s, pos);
    let ne = spec_digits_end(s, w);
    let g = spec_skip_ws(s, ne);
    let ge = spec_digits_end(s, g);
    let m = spec_skip_ws(s, ge);
    &&& ne > w && spec_digits_val(s, w, ne) <= u32::MAX
    &&& ge > g && spec_digits_val(s, g, ge) <= u16::MAX
    &&& m < s.len() && s[m] == 82
}

/// Parses a reference `N G R`: the id's two numbers, then the keyword.
/// Succeeds exactly when the reference grammar stands at `pos`.
pub fn parse_reference(s: &[u8], pos: usize) -> (r: Option<(usize, ObjectId)>)
    requires
        pos <= s@.len(),
    ensures
        r is Some <==> spec_reference_present(s@, pos as int),
        match r {
            Some((end, id)) => ({
                let w = spec_skip_ws(s@, pos as int);
                let ne = spec_digits_end(s@, w);
                let g = spec_skip_ws(s@, ne);
                let ge = spec_digits_end(s@, g);
                let m = spec_skip_ws(s@, ge);
                &&& pos < end <= s@.len()
                &&& ne > w && id.0 == spec_digits_val(s@, w, ne)
                &&& ge > g && id.1 == spec_digits_val(s@, g, ge)
                &&& m < s@.len() && s@[m] == 82
                &&& end == spec_skip_ws(s@, m + 1)
            }),
            None => true,
        },
{
    match parse_object_id(s, pos) {
        None => None,
        Some((mid, id)) => {
            if mid < s.len() && s[mid] == 82 {
                Some((skip_ws(s, mid + 1), id))
            } else {
                None
            }
        },
    }
}

/// Where the header `N G obj` that begins at `pos` ends: after the `obj`
/// keyword and its trailing whitespace.
pub open spec fn spec_object_beginning_end(s: Seq<u8>, pos: int) -> int {
    let w = spec_skip_ws(s, pos);
    let ne = spec_digits_end(s, w);
    let g = spec_skip_ws(s, ne);
    let ge = spec_digits_end(s, g);
    let o = spec_skip_ws(s, ge);
    spec_skip_ws(s, o + 3)
}

/// Parses an indirect-object header `N G obj`.
pub fn object_beginning(s: &[u8], pos: usize) -> (r: Option<(usize, ObjectId)>)
    requires
        pos <= s@.len(),
    ensures
        match r {
            Some((end, id)) => pos < end <= s@.len() && Some(id) == spec_object_beginning(
                s@,
                pos as int,
            ) && end == spec_object_beginning_end(s@, pos as int),
            None => spec_object_beginning(s@, pos as int) is None,
        },
{
    let ghost spec_r = spec_object_beginning(s@, pos as int);
    let w = skip_ws(s, pos);
    match parse_u32(s, w) {
        None => None,
        Some((ne, num)) => {
            let g = skip_ws(s, ne);
            match parse_u16(s, g) {
                None => None,
                Some((ge, gen)) => {
                    let o = skip_ws(s, ge);
                    let kw = vec![111u8, 98u8, 106u8];
                    proof {
                        assert(kw@ =~= seq![111u8, 98u8, 106u8]);
                    }
                    if tag_at(s, o, kw.as_slice()) {
                        let n = s.len();
                        proof {
                            assert(o + 3 <= n);
                        }
                        Some((skip_ws(s, o + 3), (num, gen)))
                    } else {
                        None
                    }
                },
            }
        },
    }
}

/// Copies the bytes of `s[a..b)` into a fresh vector.
pub fn copy_region(s: &[u8], a: usize, b: usize) -> (r: Vec<u8>)
    requires
        a <= b <= s@.len(),
    ensures
        r@ == s@.subrange(a as int, b as int),
{
    let mut out: Vec<u8> = Vec::new();
    let mut i = a;
    while i < b
        invariant
            a <= i <= b <= s@.len(),
            out@ == s@.subrange(a as int, i as int),
        decreases b - i,
    {
        out.push(s[i]);
        proof {
            assert(out@ =~= s@.subrange(a as int, i + 1));
        }
        i = i + 1;
    }
    out
}

/// Parses a literal string `(...)`, honouring nested parentheses, and
/// expands its escapes. The region between the delimiters starts after
/// any whitespace that follows the `(`.
pub fn parse_string_literal(s: &[u8], pos: usize) -> (r: Option<(usize, Vec<u8>)>)
    requires
        pos <= s@.len(),
    ensures
        ({
            let w = spec_skip_ws(s@, pos as int);
            match r {
                Some((end, v)) => {
                    &&& w < s@.len() && s@[w] == 40
                    &&& ({
                        let cs = spec_skip_ws(s@, w + 1);
                        let bend = spec_balanced_end(s@, cs, seq![40u8], seq![41u8], 0);
                        &&& bend is Some
                        &&& bend.unwrap() < s@.len()
                        &&& s@[bend.unwrap()] == 41
                        &&& v@ == spec_decode_lit(s@, cs, bend.unwrap())
                        &&& end == spec_skip_ws(s@, bend.unwrap() + 1)
                    })
                    &&& pos < end <= s@.len()
                },
                None => !(w < s@.len() && s@[w] == 40) || ({
                    let cs = spec_skip_ws(s@, w + 1);
                    let bend = spec_balanced_end(s@, cs, seq![40u8], seq![41u8], 0);
                    bend is None || !(bend.unwrap() < s@.len() && s@[bend.unwrap()] == 41)
                }),
            }
        }),
{
    let w = skip_ws(s, pos);
    let n = s.len();
    if !(w < n && s[w] == 40) {
        return None;
    }
    let cs = skip_ws(s, w + 1);
    let opening = vec![40u8];
    let closing = vec![41u8];
    proof {
        assert(opening@ =~= seq![40u8]);
        assert(closing@ =~= seq![41u8]);
    }
    match take_until_unmatched(opening.as_slice(), closing.as_slice(), s, cs) {
        None => None,
        Some(bend) => {
            if bend < n && s[bend] == 41 {
                let v = decode_literal_region(s, cs, bend);
                Some((skip_ws(s, bend + 1), v))
            } else {
                None
            }
        },
    }
}

/// Parses a hex string `<...>` and decodes its digit pairs; an odd final
/// digit is padded with `0`.
pub fn parse_string_hex(s: &[u8], pos: usize) -> (r: Option<(usize, Vec<u8>)>)
    requires
        pos <= s@.len(),
    ensures
        ({
            let w = spec_skip_ws(s@, pos as int);
            match r {
                Some((end, v)) => {
                    &&& w < s@.len() && s@[w] == 60
                    &&& ({
                        let cs = spec_skip_ws(s@, w + 1);
                        let bend = spec_balanced_end(s@, cs, seq![60u8], seq![62u8], 0);
                        &&& bend is Some
                        &&& bend.unwrap() < s@.len()
                        &&& s@[bend.unwrap()] == 62
                        &&& v@ == spec_decode_hex(s@, cs, bend.unwrap())
                        &&& end == spec_skip_ws(s@, bend.unwrap() + 1)
                    })
                    &&& pos < end <= s@.len()
                },
                None => !(w < s@.len() && s@[w] == 60) || ({
                    let cs = spec_skip_ws(s@, w + 1);
                    let bend = spec_balanced_end(s@, cs, seq![60u8], seq![62u8], 0);
                    bend is None || !(bend.unwrap() < s@.len() && s@[bend.unwrap()] == 62)
                }),
            }
        }),
{
    let w = skip_ws(s, pos);
    let n = s.len();
    if !(w < n && s[w] == 60) {
        return None;
    }
    let cs = skip_ws(s, w + 1);
    let opening = vec![60u8];
    let closing = vec![62u8];
    proof {
        assert(opening@ =~= seq![60u8]);
        assert(closing@ =~= seq![62u8]);
    }
    match take_until_unmatched(opening.as_slice(), closing.as_slice(), s, cs) {
        None => None,
        Some(bend) => {
            if bend < n && s[bend] == 62 {
                let v = decode_hex_region(s, cs, bend);
                Some((skip_ws(s, bend + 1), v))
            } else {
                None
            }
        },
    }
}

/// Parses a string object of either format: literal first, then hex.
/// The bytes come back decoded by the matching format's rules.
pub fn parse_string(s: &[u8], pos: usize) -> (r: Option<(usize, Vec<u8>, StringFormat)>)
    requires
        pos <= s@.len(),
    ensures
        match r {
            Some((end, v, f)) => ({
                let w = spec_skip_ws(s@, pos as int);
                let cs = spec_skip_ws(s@, w + 1);
                &&& pos < end <= s@.len()
                &&& (f == StringFormat::Literal ==> ({
                    let bend = spec_balanced_end(s@, cs, seq![40u8], seq![41u8], 0);
                    &&& w < s@.len() && s@[w] == 40
                    &&& bend is Some
                    &&& v@ == spec_decode_lit(s@, cs, bend.unwrap())
                    &&& end == spec_skip_ws(s@, bend.unwrap() + 1)
                }))
                &&& (f == StringFormat::Hexadecimal ==> ({
                    let bend = spec_balanced_end(s@, cs, seq![60u8], seq![62u8], 0);
                    &&& w < s@.len() && s@[w] == 60
                    &&& bend is Some
                    &&& v@ == spec_decode_hex(s@, cs, bend.unwrap())
                    &&& end == spec_skip_ws(s@, bend.unwrap() + 1)
                }))
            }),
            None => ({
                let w = spec_skip_ws(s@, pos as int);
                let cs = spec_skip_ws(s@, w + 1);
                &&& (!(w < s@.len() && s@[w] == 40) || ({
                    let bend = spec_balanced_end(s@, cs, seq![40u8], seq![41u8], 0);
                    bend is None || !(bend.unwrap() < s@.len() && s@[bend.unwrap()] == 41)
                }))
                &&& (!(w < s@.len() && s@[w] == 60) || ({
                    let bend = spec_balanced_end(s@, cs, seq![60u8], seq![62u8], 0);
                    bend is None || !(bend.unwrap() < s@.len() && s@[bend.unwrap()] == 62)
                }))
            }),
        },
{
    match parse_string_literal(s, pos) {
        Some((end, v)) => Some((end, v, StringFormat::Literal)),
        None => match parse_string_hex(s, pos) {
            Some((end, v)) => Some((end, v, StringFormat::Hexadecimal)),
            None => None,
        },
    }
}

/// What holds when a body parse at `pos` fails: no alternative of the
/// body grammar except possibly an array stands there. (A failed array
/// alternative leaves no footprint a few lines can state.)
pub open spec fn spec_body_fails(s: Seq<u8>, pos: int) -> bool {
    let w = spec_skip_ws(s, pos);
    let start = if crate::numbers::spec_sign_at(s, w) {
        w + 1
    } else {
        w
    };
    let cs = spec_skip_ws(s, w + 1);
    &&& !spec_reference_present(s, pos)
    &&& !spec_null_at(s, pos)
    &&& (!crate::numbers::spec_real_form(s, start) || crate::numbers::spec_real_mag_micros(
        s,
        start,
    ) > crate::numbers::REAL_LIMIT)
    &&& (!crate::numbers::spec_int_form(s, w) || crate::numbers::spec_int_val(s, w) < i64::MIN
        || crate::numbers::spec_int_val(s, w) > i64::MAX)
    &&& !spec_name_at(s, pos)
    &&& spec_boolean_at(s, pos) is None
    &&& !spec_dict_region_ok(s, pos)
    &&& (!(w < s.len() && s[w] == 40) || ({
        let bend = spec_balanced_end(s, cs, seq![40u8], seq![41u8], 0);
        bend is None || !(bend.unwrap() < s.len() && s[bend.unwrap()] == 41)
    }))
    &&& (!(w < s.len() && s[w] == 60) || ({
        let bend = spec_balanced_end(s, cs, seq![60u8], seq![62u8], 0);
        bend is None || !(bend.unwrap() < s.len() && s[bend.unwrap()] == 62)
    }))
}

/// What a successful body parse at `pos` pins of its end and value `o`:
/// every leaf alternative carries its exact value and end, an array its
/// element chain; a dictionary or stream is placed by its opening
/// delimiter.
pub open spec fn spec_body_result(s: Seq<u8>, pos: int, end: int, o: Object) -> bool
    decreases o,
{
    let w = spec_skip_ws(s, pos);
    &&& pos < end <= s.len()
    &&& crate::object::spec_object_sound(s, o)
    &&& (o is Null ==> spec_null_at(s, pos) && end == spec_skip_ws(s, w + 4))
    &&& (o matches Object::Boolean(b) ==> spec_boolean_at(s, pos) == Some(b) && end
        == spec_skip_ws(
        s,
        w + if b {
            4int
        } else {
            5int
        },
    ))
    &&& (o matches Object::Reference(id) ==> spec_reference_present(s, pos) && id.0
        == spec_digits_val(s, w, spec_digits_end(s, w)) && ({
        let g = spec_skip_ws(s, spec_digits_end(s, w));
        let ge = spec_digits_end(s, g);
        let m = spec_skip_ws(s, ge);
        id.1 == spec_digits_val(s, g, ge) && end == spec_skip_ws(s, m + 1)
    }))
    &&& (o matches Object::Integer(v) ==> crate::numbers::spec_int_form(s, w) && v
        == crate::numbers::spec_int_val(s, w) && end == spec_skip_ws(
        s,
        crate::numbers::spec_int_end(s, w),
    ))
    &&& (o matches Object::Real(f) ==> ({
        let start = if crate::numbers::spec_sign_at(s, w) {
            w + 1
        } else {
            w
        };
        crate::numbers::spec_real_form(s, start) && f.micros == (if crate::numbers::spec_minus_at(
            s,
            w,
        ) {
            -(crate::numbers::spec_real_mag_micros(s, start) as int)
        } else {
            crate::numbers::spec_real_mag_micros(s, start) as int
        }) && end == spec_skip_ws(s, crate::numbers::spec_real_end(s, start))
    }))
    &&& (o matches Object::String(v, f) ==> ({
        let cs = spec_skip_ws(s, w + 1);
        &&& (f == StringFormat::Literal ==> ({
            let bend = spec_balanced_end(s, cs, seq![40u8], seq![41u8], 0);
            w < s.len() && s[w] == 40 && bend is Some && v@ == spec_decode_lit(
                s,
                cs,
                bend.unwrap(),
            ) && end == spec_skip_ws(s, bend.unwrap() + 1)
        }))
        &&& (f == StringFormat::Hexadecimal ==> ({
            let bend = spec_balanced_end(s, cs, seq![60u8], seq![62u8], 0);
            w < s.len() && s[w] == 60 && bend is Some && v@ == spec_decode_hex(
                s,
                cs,
                bend.unwrap(),
            ) && end == spec_skip_ws(s, bend.unwrap() + 1)
        }))
    }))
    &&& (o is Dictionary || o is Stream ==> spec_tag_at(s, w, seq![60u8, 60u8]))
    &&& (o matches Object::Array(items) ==> w < s.len() && s[w] == 91 && exists|ps: Seq<int>|
        {
            &&& ps.len() == items@.len() + 1
            &&& ps[0] == w + 1
            &&& (forall|i: int|
                0 <= i < items@.len() ==> !({
                    let wc = spec_skip_ws(s, #[trigger] ps[i]);
                    wc < s.len() && s[wc] == 93
                }) && spec_body_result(s, ps[i], ps[i + 1], items@[i]))
            &&& ({
                let wc = spec_skip_ws(s, ps[ps.len() - 1]);
                wc < s.len() && s[wc] == 93 && end == spec_skip_ws(s, wc + 1)
            })
        })
    &&& (o matches Object::Name(nm) ==> spec_name_at(s, pos) && nm@ == spec_name_decode(
        s,
        w + 1,
    ) && end == spec_skip_ws(s, spec_name_end(s, w + 1)))
}

/// The dictionary region after the whitespace at `pos` parses to `d`.
pub open spec fn spec_dict_at(s: Seq<u8>, pos: int, d: Dictionary) -> bool {
    let w = spec_skip_ws(s, pos);
    let rs = spec_skip_ws(s, w + 2);
    let rg = spec_balanced_end(s, rs, seq![60u8, 60u8], seq![62u8, 62u8], 0);
    rg matches Some(bend) && spec_dict_parsed(s.subrange(rs, bend), d)
}

/// Parses one object body, dispatching on what stands after the
/// whitespace: a reference, a keyword, a number, a name, a dictionary or
/// stream, an array, or a string, in that order of preference.
pub fn parse_object_body(s: &[u8], pos: usize) -> (r: Option<(usize, Object)>)
    requires
        pos <= s@.len(),
    ensures
        match r {
            Some((end, o)) => {
                &&& spec_body_result(s@, pos as int, end as int, o)
                &&& (o matches Object::Dictionary(d) ==> spec_dict_at(s@, pos as int, d))
                &&& (o matches Object::Stream(st) ==> spec_dict_at(s@, pos as int, st.dict))
            },
            None => spec_body_fails(s@, pos as int),
        },
    decreases s@.len() - pos, 2int,
{
    match parse_reference(s, pos) {
        Some((end, id)) => {
            return Some((end, Object::Reference(id)));
        },
        None => {},
    }
    match parse_null(s, pos) {
        Some(end) => {
            return Some((end, Object::Null));
        },
        None => {},
    }
    match parse_real(s, pos) {
        Some((end, v)) => {
            return Some((end, Object::Real(v)));
        },
        None => {},
    }
    match parse_integer(s, pos) {
        Some((end, v)) => {
            return Some((end, Object::Integer(v)));
        },
        None => {},
    }
    match parse_name_obj(s, pos) {
        Some((end, v)) => {
            return Some((end, Object::Name(v)));
        },
        None => {},
    }
    match parse_boolean(s, pos) {
        Some((end, v)) => {
            return Some((end, Object::Boolean(v)));
        },
        None => {},
    }
    match parse_dict_or_stream(s, pos) {
        Some((end, o)) => {
            return Some((end, o));
        },
        None => {},
    }
    match parse_array(s, pos) {
        Some((end, items)) => {
            return Some((end, Object::Array(items)));
        },
        None => {},
    }
    match parse_string(s, pos) {
        Some((end, v, f)) => {
            return Some((end, Object::String(v, f)));
        },
        None => {},
    }
    None
}

/// A closed `<< ... >>` region stands after the whitespace at `pos`.
pub open spec fn spec_dict_region_ok(s: Seq<u8>, pos: int) -> bool {
    let w = spec_skip_ws(s, pos);
    let rs = spec_skip_ws(s, w + 2);
    let rg = spec_balanced_end(s, rs, seq![60u8, 60u8], seq![62u8, 62u8], 0);
    &&& spec_tag_at(s, w, seq![60u8, 60u8])
    &&& rg is Some
    &&& spec_tag_at(s, rg.unwrap(), seq![62u8, 62u8])
}

/// Parses a `<< ... >>` dictionary, and the stream that follows it when
/// the `stream` keyword and a closing `endstream` are both present; the
/// payload is the region between the keyword's trailing whitespace and
/// the first `endstream`. Succeeds exactly when the delimited region is
/// present and closed.
pub fn parse_dict_or_stream(s: &[u8], pos: usize) -> (r: Option<(usize, Object)>)
    requires
        pos <= s@.len(),
    ensures
        ({
            let w = spec_skip_ws(s@, pos as int);
            let rs = spec_skip_ws(s@, w + 2);
            let rg = spec_balanced_end(s@, rs, seq![60u8, 60u8], seq![62u8, 62u8], 0);
            let dict_ok = spec_dict_region_ok(s@, pos as int);
            match r {
                Some((end, o)) => {
                    let bend = rg.unwrap();
                    let ad = spec_skip_ws(s@, bend + 2);
                    let stream_kw = spec_tag_at(
                        s@,
                        ad,
                        seq![115u8, 116u8, 114u8, 101u8, 97u8, 109u8],
                    );
                    let cs = spec_skip_ws(s@, ad + 6);
                    let fe = crate::scan::spec_find_tag(
                        s@,
                        cs,
                        seq![101u8, 110u8, 100u8, 115u8, 116u8, 114u8, 101u8, 97u8, 109u8],
                    );
                    &&& pos < end <= s@.len()
                    &&& crate::object::spec_object_sound(s@, o)
                    &&& dict_ok
                    &&& (o matches Object::Stream(st) ==> stream_kw && (fe matches Some(ke)
                        && st.content@ == s@.subrange(cs, ke) && end == spec_skip_ws(s@, ke + 9))
                        && st.allows_compression == false && st.start_position is None
                        && spec_dict_parsed(s@.subrange(rs, rg.unwrap()), st.dict))
                    &&& (o matches Object::Dictionary(d) ==> end == ad && (!stream_kw || fe
                        is None) && spec_dict_parsed(s@.subrange(rs, rg.unwrap()), d))
                    &&& (o is Dictionary || o is Stream)
                },
                None => !dict_ok,
            }
        }),
    decreases s@.len() - pos, 1int,
{
    let w = skip_ws(s, pos);
    let n = s.len();
    let open_tag = vec![60u8, 60u8];
    let close_tag = vec![62u8, 62u8];
    proof {
        assert(open_tag@ =~= seq![60u8, 60u8]);
        assert(close_tag@ =~= seq![62u8, 62u8]);
    }
    if !tag_at(s, w, open_tag.as_slice()) {
        return None;
    }
    proof {
        assert(w + 2 <= n);
    }
    let rs = skip_ws(s, w + 2);
    let bend = match take_until_unmatched(open_tag.as_slice(), close_tag.as_slice(), s, rs) {
        None => {
            return None;
        },
        Some(b) => b,
    };
    if !tag_at(s, bend, close_tag.as_slice()) {
        return None;
    }
    let sub = vstd::slice::slice_subrange(s, rs, bend);
    let dict = parse_dict_items(sub);
    proof {
        assert(sub@ == s@.subrange(rs as int, bend as int));
        assert forall|i: int| 0 <= i < dict.entries@.len() implies crate::object::spec_object_sound(
            s@,
            #[trigger] dict.entries@[i].1,
        ) by {
            crate::object::lemma_sound_embed(
                sub@,
                s@,
                rs as int,
                bend as int,
                dict.entries@[i].1,
            );
        }
    }
    proof {
        assert(bend + 2 <= n);
    }
    let after_dict = skip_ws(s, bend + 2);
    // a stream is this dictionary followed by the `stream` keyword, the
    // payload bytes and `endstream`; failing that, the dictionary stands
    // alone
    let kw_stream = vec![115u8, 116u8, 114u8, 101u8, 97u8, 109u8];
    proof {
        assert(kw_stream@ =~= seq![115u8, 116u8, 114u8, 101u8, 97u8, 109u8]);
    }
    if tag_at(s, after_dict, kw_stream.as_slice()) {
        proof {
            assert(after_dict + 6 <= n);
        }
        let cstart = skip_ws(s, after_dict + 6);
        let tail = vstd::slice::slice_subrange(s, cstart, n);
        let kw_end = vec![101u8, 110u8, 100u8, 115u8, 116u8, 114u8, 101u8, 97u8, 109u8];
        let mut needles: Vec<&[u8]> = Vec::new();
        needles.push(kw_end.as_slice());
        proof {
            assert(kw_end@ =~= seq![101u8, 110u8, 100u8, 115u8, 116u8, 114u8, 101u8, 97u8,
                109u8]);
            assert(needles@[0]@ == kw_end@);
        }
        let ghost nsview = needles@;
        match find_subsequence(tail, needles) {
            Some(k) => {
                proof {
                    assert(spec_matches_any(tail@, nsview, k as int));
                    let m = choose|m: int|
                        0 <= m < nsview.len() && spec_tag_at(tail@, k as int, nsview[m]@);
                    assert(m == 0);
                    assert(spec_tag_at(tail@, k as int, kw_end@));
                    crate::scan::lemma_tag_in_window(s@, cstart as int, tail@, kw_end@, k as int);
                    assert(spec_tag_at(s@, cstart + k, kw_end@));
                    assert forall|j: int| 0 <= j < k implies !(#[trigger] spec_tag_at(
                        s@,
                        cstart + j,
                        kw_end@,
                    )) by {
                        crate::scan::lemma_tag_in_window(s@, cstart as int, tail@, kw_end@, j);
                        if spec_tag_at(tail@, j, kw_end@) {
                            assert(spec_matches_any(tail@, nsview, j));
                        }
                    }
                    crate::scan::lemma_find_tag_some(s@, cstart as int, kw_end@, k as int);
                    assert(cstart + k + 9 <= n);
                }
                let content = copy_region(s, cstart, cstart + k);
                let epos = cstart + k + 9;
                let end = skip_ws(s, epos);
                let st = Stream {
                    dict,
                    content,
                    allows_compression: false,
                    start_position: None,
                };
                proof {
                    assert(st.content@ == s@.subrange(cstart as int, cstart + k));
                    assert(st.content@ == s@.subrange(
                        cstart as int,
                        cstart as int + st.content@.len(),
                    ));
                    assert(crate::object::spec_stream_content_from(s@, st));
                }
                return Some((end, Object::Stream(st)));
            },
            None => {
                proof {
                    assert forall|j: int| 0 <= j implies !(#[trigger] spec_tag_at(
                        s@,
                        cstart + j,
                        kw_end@,
                    )) by {
                        crate::scan::lemma_tag_in_window(s@, cstart as int, tail@, kw_end@, j);
                        if spec_tag_at(tail@, j, kw_end@) {
                            assert(spec_matches_any(tail@, nsview, j));
                        }
                    }
                    crate::scan::lemma_find_tag_none(s@, cstart as int, kw_end@);
                }
                return Some((after_dict, Object::Dictionary(dict)));
            },
        }
    }
    Some((after_dict, Object::Dictionary(dict)))
}

/// The decoded name after the whitespace at `pos`.
pub open spec fn spec_name_val(s: Seq<u8>, pos: int) -> Seq<u8> {
    spec_name_decode(s, spec_skip_ws(s, pos) + 1)
}

/// End of the whitespace-wrapped name at `pos`.
pub open spec fn spec_name_end_ws(s: Seq<u8>, pos: int) -> int {
    spec_skip_ws(s, spec_name_end(s, spec_skip_ws(s, pos) + 1))
}

/// One `name value` pair of a dictionary region at `p`: the key is the
/// name standing there; the value parses from the name's end to `pnext`.
pub open spec fn spec_dict_pair_at(
    s: Seq<u8>,
    p: int,
    pnext: int,
    key: Seq<u8>,
    val: Object,
) -> bool {
    &&& spec_name_at(s, p)
    &&& key == spec_name_val(s, p)
    &&& spec_body_result(s, spec_name_end_ws(s, p), pnext, val)
}

/// The pair chain of a dictionary region: `ps` are the pair boundaries
/// from the region's start, `kv` the keys and values in file order, and
/// no further pair starts at the chain's end.
pub open spec fn spec_dict_pairs(s: Seq<u8>, ps: Seq<int>, kv: Seq<(Seq<u8>, Object)>) -> bool {
    &&& ps.len() == kv.len() + 1
    &&& ps[0] == 0
    &&& (forall|i: int|
        0 <= i < kv.len() ==> spec_dict_pair_at(s, #[trigger] ps[i], ps[i + 1], kv[i].0, kv[i].1))
    &&& (!spec_name_at(s, ps[ps.len() - 1]) || spec_body_fails(
        s,
        spec_name_end_ws(s, ps[ps.len() - 1]),
    ))
}

/// `kv` holds a pair with this key.
pub open spec fn spec_kv_contains(kv: Seq<(Seq<u8>, Object)>, key: Seq<u8>) -> bool {
    exists|i: int| 0 <= i < kv.len() && #[trigger] kv[i].0 == key
}

/// The value of the last pair of `kv` with this key.
pub open spec fn spec_kv_last(kv: Seq<(Seq<u8>, Object)>, key: Seq<u8>) -> Object
    decreases kv.len(),
{
    if kv.len() == 0 {
        Object::Null
    } else if kv[kv.len() - 1].0 == key {
        kv[kv.len() - 1].1
    } else {
        spec_kv_last(kv.drop_last(), key)
    }
}

/// Appending a pair adds its key, sets its value last, and leaves every
/// other key's last value alone.
pub proof fn lemma_kv_push(kv: Seq<(Seq<u8>, Object)>, key: Seq<u8>, val: Object)
    ensures
        forall|k: Seq<u8>|
            spec_kv_contains(kv.push((key, val)), k) <==> (spec_kv_contains(kv, k) || k == key),
        spec_kv_last(kv.push((key, val)), key) == val,
        forall|k: Seq<u8>|
            k != key && spec_kv_contains(kv, k) ==> spec_kv_last(kv.push((key, val)), k)
                == spec_kv_last(kv, k),
{
    let kvp = kv.push((key, val));
    assert(kvp.drop_last() =~= kv);
    assert(kvp[kvp.len() - 1] == (key, val));
    assert forall|k: Seq<u8>|
        spec_kv_contains(kvp, k) <==> (spec_kv_contains(kv, k) || k == key) by {
        if spec_kv_contains(kvp, k) {
            let i = choose|i: int| 0 <= i < kvp.len() && kvp[i].0 == k;
            if i < kv.len() {
                assert(kv[i].0 == k);
            }
        }
        if spec_kv_contains(kv, k) {
            let i = choose|i: int| 0 <= i < kv.len() && kv[i].0 == k;
            assert(kvp[i].0 == k);
        }
        if k == key {
            assert(kvp[kv.len() as int].0 == k);
        }
    }
}

/// The dictionary is exactly what the pair chain of the region yields:
/// one entry per distinct key, the later pair winning.
pub open spec fn spec_dict_parsed(s: Seq<u8>, d: Dictionary) -> bool {
    exists|ps: Seq<int>, kv: Seq<(Seq<u8>, Object)>|
        {
            &&& #[trigger] spec_dict_pairs(s, ps, kv)
            &&& (forall|key: Seq<u8>| d.spec_contains_key(key) <==> spec_kv_contains(kv, key))
            &&& (forall|key: Seq<u8>|
                d.spec_contains_key(key) ==> d.spec_value(key) == spec_kv_last(kv, key))
        }
}

/// Parses the `name value` pairs of a dictionary region. Pairs are read
/// until neither a further name nor a further value can be; a repeated
/// key keeps its position and takes the later value.
#[verifier::rlimit(100)]
#[verifier::spinoff_prover]
fn parse_dict_items(sub: &[u8]) -> (r: Dictionary)
    ensures
        r.wf(),
        forall|i: int|
            0 <= i < r.entries@.len() ==> crate::object::spec_object_sound(
                sub@,
                #[trigger] r.entries@[i].1,
            ),
        spec_dict_parsed(sub@, r),
    decreases sub@.len(), 2int,
{
    let mut dict = Dictionary::new();
    let mut p: usize = 0;
    let n = sub.len();
    let ghost mut ps: Seq<int> = seq![0int];
    let ghost mut kv: Seq<(Seq<u8>, Object)> = Seq::empty();
    loop
        invariant
            0 <= p <= n,
            n == sub@.len(),
            dict.wf(),
            forall|i: int|
                0 <= i < dict.entries@.len() ==> crate::object::spec_object_sound(
                    sub@,
                    #[trigger] dict.entries@[i].1,
                ),
            ps.len() == kv.len() + 1,
            ps[0] == 0,
            ps[ps.len() - 1] == p as int,
            forall|i: int|
                0 <= i < kv.len() ==> spec_dict_pair_at(
                    sub@,
                    #[trigger] ps[i],
                    ps[i + 1],
                    kv[i].0,
                    kv[i].1,
                ),
            forall|key: Seq<u8>| dict.spec_contains_key(key) <==> spec_kv_contains(kv, key),
            forall|key: Seq<u8>|
                dict.spec_contains_key(key) ==> dict.spec_value(key) == spec_kv_last(kv, key),
        decreases n - p,
    {
        let (pn, name) = match parse_name_obj(sub, p) {
            None => {
                proof {
                    assert(spec_dict_pairs(sub@, ps, kv));
                }
                return dict;
            },
            Some(x) => x,
        };
        let (pv, value) = match parse_object_body(sub, pn) {
            None => {
                proof {
                    assert(pn as int == spec_name_end_ws(sub@, p as int));
                    assert(spec_dict_pairs(sub@, ps, kv));
                }
                return dict;
            },
            Some(x) => x,
        };
        let ghost prior = dict;
        let ghost keyv: Seq<u8> = name@;
        let ghost valv: Object = value;
        dict.insert(name, value);
        proof {
            assert forall|i: int|
                0 <= i < dict.entries@.len() implies crate::object::spec_object_sound(
                sub@,
                #[trigger] dict.entries@[i].1,
            ) by {
                if prior.spec_contains_key(keyv) {
                    let ki = prior.spec_key_idx(keyv);
                    if i != ki {
                        assert(dict.entries@[i] == prior.entries@[i]);
                    }
                } else {
                    if i < prior.entries@.len() {
                        assert(dict.entries@[i] == prior.entries@[i]);
                    }
                }
            }
            lemma_kv_push(kv, keyv, valv);
            let ghost kvn = kv.push((keyv, valv));
            let ghost psn = ps.push(pv as int);
            assert forall|key: Seq<u8>|
                dict.spec_contains_key(key) <==> spec_kv_contains(kvn, key) by {
                if dict.spec_contains_key(key) && key != keyv {
                    let i = choose|i: int|
                        0 <= i < dict.entries@.len() && dict.entries@[i].0@ == key;
                    if prior.spec_contains_key(keyv) {
                        assert(dict.entries@[i] == prior.entries@[i]);
                    } else {
                        if i < prior.entries@.len() {
                            assert(dict.entries@[i] == prior.entries@[i]);
                        }
                    }
                    assert(prior.spec_contains_key(key));
                }
                if spec_kv_contains(kv, key) {
                    assert(prior.spec_contains_key(key));
                    let i = choose|i: int|
                        0 <= i < prior.entries@.len() && prior.entries@[i].0@ == key;
                    if prior.spec_contains_key(keyv) {
                        let ki = prior.spec_key_idx(keyv);
                        if i == ki {
                            assert(dict.entries@[i].0@ == keyv);
                            assert(key == keyv);
                        } else {
                            assert(dict.entries@[i] == prior.entries@[i]);
                        }
                    } else {
                        assert(dict.entries@[i] == prior.entries@[i]);
                    }
                    assert(dict.spec_contains_key(key));
                }
            }
            assert forall|key: Seq<u8>|
                dict.spec_contains_key(key) implies dict.spec_value(key) == spec_kv_last(
                kvn,
                key,
            ) by {
                let di = dict.spec_key_idx(key);
                assert(0 <= di < dict.entries@.len() && dict.entries@[di].0@ == key);
                if key == keyv {
                    if prior.spec_contains_key(keyv) {
                        let ki = prior.spec_key_idx(keyv);
                        assert(dict.entries@[ki].0@ == keyv && dict.entries@[ki].1 == valv);
                        assert(di == ki) by {
                            if di != ki {
                                assert(dict.entries@[di].0@ == dict.entries@[ki].0@);
                            }
                        }
                    } else {
                        let last = prior.entries@.len() as int;
                        assert(dict.entries@[last].0@ == keyv && dict.entries@[last].1 == valv);
                        assert(di == last) by {
                            if di != last {
                                assert(dict.entries@[di] == prior.entries@[di]);
                                assert(prior.spec_contains_key(keyv));
                            }
                        }
                    }
                    assert(dict.spec_value(key) == valv);
                } else {
                    if prior.spec_contains_key(keyv) {
                        let ki = prior.spec_key_idx(keyv);
                        assert(di != ki);
                        assert(dict.entries@[di] == prior.entries@[di]);
                    } else {
                        assert(di != prior.entries@.len() as int);
                        assert(dict.entries@[di] == prior.entries@[di]);
                    }
                    assert(prior.spec_contains_key(key));
                    let pi = prior.spec_key_idx(key);
                    assert(pi == di) by {
                        if pi != di {
                            assert(prior.entries@[pi].0@ == prior.entries@[di].0@);
                        }
                    }
                    assert(prior.spec_value(key) == dict.spec_value(key));
                    assert(spec_kv_contains(kv, key));
                }
            }
            assert forall|i: int|
                0 <= i < kvn.len() implies spec_dict_pair_at(
                sub@,
                #[trigger] psn[i],
                psn[i + 1],
                kvn[i].0,
                kvn[i].1,
            ) by {
                if i < kv.len() {
                    assert(psn[i] == ps[i] && psn[i + 1] == ps[i + 1]);
                    assert(kvn[i] == kv[i]);
                } else {
                    assert(psn[i] == p as int && psn[i + 1] == pv as int);
                    assert(kvn[i] == (keyv, valv));
                    assert(pn as int == spec_name_end_ws(sub@, p as int));
                }
            }
            kv = kvn;
            ps = psn;
        }
        p = pv;
    }
}

/// Parses an array `[ ... ]` of object bodies.
pub fn parse_array(s: &[u8], pos: usize) -> (r: Option<(usize, Vec<Object>)>)
    requires
        pos <= s@.len(),
    ensures
        ({
            let w = spec_skip_ws(s@, pos as int);
            match r {
                Some((end, items)) => {
                    &&& pos < end <= s@.len()
                    &&& w < s@.len() && s@[w] == 91
                    &&& forall|i: int|
                        0 <= i < items@.len() ==> crate::object::spec_object_sound(
                            s@,
                            #[trigger] items@[i],
                        )
                    &&& exists|ps: Seq<int>|
                        {
                            &&& ps.len() == items@.len() + 1
                            &&& ps[0] == w + 1
                            &&& (forall|i: int|
                                0 <= i < items@.len() ==> !({
                                    let wc = spec_skip_ws(s@, #[trigger] ps[i]);
                                    wc < s@.len() && s@[wc] == 93
                                }) && spec_body_result(s@, ps[i], ps[i + 1], items@[i]))
                            &&& ({
                                let wc = spec_skip_ws(s@, ps[ps.len() - 1]);
                                wc < s@.len() && s@[wc] == 93 && end == spec_skip_ws(s@, wc + 1)
                            })
                        }
                },
                None => !(w < s@.len() && s@[w] == 91) || exists|q: int|
                    {
                        &&& w < q <= s@.len()
                        &&& !({
                            let wc = spec_skip_ws(s@, q);
                            wc < s@.len() && s@[wc] == 93
                        })
                        &&& #[trigger] spec_body_fails(s@, q)
                    },
            }
        }),
    decreases s@.len() - pos, 1int,
{
    let w = skip_ws(s, pos);
    let n = s.len();
    if !(w < n && s[w] == 91) {
        return None;
    }
    let mut items: Vec<Object> = Vec::new();
    let mut p = w + 1;
    let ghost mut ps: Seq<int> = seq![w + 1 as int];
    loop
        invariant
            pos < p <= n,
            w < p,
            n == s@.len(),
            w == spec_skip_ws(s@, pos as int),
            w < s@.len() && s@[w as int] == 91,
            forall|i: int|
                0 <= i < items@.len() ==> crate::object::spec_object_sound(
                    s@,
                    #[trigger] items@[i],
                ),
            ps.len() == items@.len() + 1,
            ps[0] == w + 1,
            ps[ps.len() - 1] == p as int,
            forall|i: int|
                0 <= i < items@.len() ==> !({
                    let wc = spec_skip_ws(s@, #[trigger] ps[i]);
                    wc < s@.len() && s@[wc] == 93
                }) && spec_body_result(s@, ps[i], ps[i + 1], items@[i]),
        decreases n - p,
    {
        let wc = skip_ws(s, p);
        if wc < n && s[wc] == 93 {
            return Some((skip_ws(s, wc + 1), items));
        }
        match parse_object_body(s, p) {
            None => {
                proof {
                    assert(spec_body_fails(s@, p as int));
                }
                return None;
            },
            Some((pe, o)) => {
                let ghost ov = o;
                items.push(o);
                proof {
                    let ghost psn = ps.push(pe as int);
                    assert forall|i: int|
                        0 <= i < items@.len() implies !({
                        let wc2 = spec_skip_ws(s@, #[trigger] psn[i]);
                        wc2 < s@.len() && s@[wc2] == 93
                    }) && spec_body_result(s@, psn[i], psn[i + 1], items@[i]) by {
                        if i < items@.len() - 1 {
                            assert(psn[i] == ps[i] && psn[i + 1] == ps[i + 1]);
                        } else {
                            assert(psn[i] == p as int && psn[i + 1] == pe as int);
                            assert(items@[i] == ov);
                        }
                    }
                    ps = psn;
                }
                p = pe;
            },
        }
    }
}

/// Parses a whole indirect object: its `N G obj` header, then its body.
/// Nothing comes back only when the header is absent or no alternative
/// of the body grammar starts after it.
pub fn parse_indirect_object(s: &[u8], pos: usize) -> (r: Option<(usize, ObjectId, Object)>)
    requires
        pos <= s@.len(),
    ensures
        match r {
            Some((end, id, o)) => {
                &&& pos < end <= s@.len()
                &&& crate::object::spec_object_sound(s@, o)
                &&& spec_object_beginning(s@, pos as int) == Some(id)
                &&& spec_body_result(s@, spec_object_beginning_end(s@, pos as int), end as int, o)
                &&& (o matches Object::Dictionary(d) ==> spec_dict_at(
                    s@,
                    spec_object_beginning_end(s@, pos as int),
                    d,
                ))
                &&& (o matches Object::Stream(st) ==> spec_dict_at(
                    s@,
                    spec_object_beginning_end(s@, pos as int),
                    st.dict,
                ))
            },
            None => spec_object_beginning(s@, pos as int) is None || spec_body_fails(
                s@,
                spec_object_beginning_end(s@, pos as int),
            ),
        },
{
    match object_beginning(s, pos) {
        None => None,
        Some((mid, id)) => match parse_object_body(s, mid) {
            None => None,
            Some((end, o)) => Some((end, id, o)),
        },
    }
}

/// The indirect-object header grammar `N G obj` at `pos`: the object and
/// generation numbers it names, when it is present and the numbers fit.
pub open spec fn spec_object_beginning(s: Seq<u8>, pos: int) -> Option<ObjectId> {
    let w = spec_skip_ws(s, pos);
    let ne = spec_digits_end(s, w);
    let g = spec_skip_ws(s, ne);
    let ge = spec_digits_end(s, g);
    let o = spec_skip_ws(s, ge);
    if ne > w && spec_digits_val(s, w, ne) <= u32::MAX && ge > g && spec_digits_val(s, g, ge)
        <= u16::MAX && spec_tag_at(s, o, seq![111u8, 98u8, 106u8]) {
        Some(
            (
                spec_digits_val(s, w, ne) as u32,
                spec_digits_val(s, g, ge) as u16,
            ),
        )
    } else {
        None
    }
}

} // verus!
