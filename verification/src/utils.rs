//! Small helpers: index reversal for palette lookups, and the decimal
//! file name an object id maps to.

use vstd::prelude::*;

use crate::ObjectId;

verus! {

/// Maps an index to its mirror in an array of the given length: `0` maps
/// to `len - 1`, `len - 1` maps to `0`. Out-of-range indices and the
/// empty length map to `0`.
pub fn invert_index(i: usize, arr_length: usize) -> (r: usize)
    ensures
        r == if arr_length == 0 || i >= arr_length {
            0usize
        } else {
            (arr_length - 1 - i) as usize
        },
{
    if arr_length == 0 || i >= arr_length {
        0
    } else {
        arr_length - 1 - i
    }
}

/// The decimal digits of `n`, most significant first, as ASCII bytes.
pub open spec fn spec_dec_bytes(n: nat) -> Seq<u8>
    decreases n,
{
    if n < 10 {
        seq![(48 + n) as u8]
    } else {
        spec_dec_bytes(n / 10).push((48 + n % 10) as u8)
    }
}

/// Writes `v` in decimal.
pub fn u64_dec_bytes(v: u64) -> (r: Vec<u8>)
    ensures
        r@ == spec_dec_bytes(v as nat),
    decreases v,
{
    if v < 10 {
        let mut out: Vec<u8> = Vec::new();
        out.push(48 + (v as u8));
        proof {
            assert(out@ =~= spec_dec_bytes(v as nat));
        }
        out
    } else {
        let mut out = u64_dec_bytes(v / 10);
        out.push(48 + ((v % 10) as u8));
        proof {
            assert(out@ =~= spec_dec_bytes(v as nat));
        }
        out
    }
}

/// Decimal digits are ASCII.
pub proof fn lemma_dec_bytes_ascii(n: nat)
    ensures
        forall|i: int|
            0 <= i < spec_dec_bytes(n).len() ==> 48 <= #[trigger] spec_dec_bytes(n)[i] <= 57,
    decreases n,
{
    if n >= 10 {
        lemma_dec_bytes_ascii(n / 10);
        assert forall|i: int| 0 <= i < spec_dec_bytes(n).len() implies 48 <= #[trigger] spec_dec_bytes(
            n,
        )[i] <= 57 by {
            if i < spec_dec_bytes(n / 10).len() {
                assert(spec_dec_bytes(n)[i] == spec_dec_bytes(n / 10)[i]);
            } else {
                assert(spec_dec_bytes(n)[i] == (48 + n % 10) as u8);
            }
        }
    }
}

/// The characters the ASCII bytes of `s` spell.
pub open spec fn spec_ascii_chars(s: Seq<u8>) -> Seq<char> {
    Seq::new(s.len(), |i: int| s[i] as char)
}

/// Relies on `String::from_utf8`: ASCII bytes are valid UTF-8 and decode
/// to exactly their own characters.
#[verifier::external_body]
pub(crate) fn bytes_to_ascii_string(bytes: Vec<u8>) -> (r: String)
    requires
        forall|i: int| 0 <= i < bytes@.len() ==> bytes@[i] < 128,
    ensures
        r@ == spec_ascii_chars(bytes@),
{
    match String::from_utf8(bytes) {
        Ok(s) => s,
        Err(_) => String::new(),
    }
}

/// The file name for a page's object id: the object number, a dash, the
/// generation number, all in decimal.
pub fn object_id_to_filename(page_id: ObjectId) -> (r: String)
    ensures
        r@ == spec_ascii_chars(
            spec_dec_bytes(page_id.0 as nat) + seq![45u8] + spec_dec_bytes(page_id.1 as nat),
        ),
{
    let mut bytes = u64_dec_bytes(page_id.0 as u64);
    bytes.push(45);
    let tail = u64_dec_bytes(page_id.1 as u64);
    let tn = tail.len();
    proof {
        assert(bytes@ =~= spec_dec_bytes(page_id.0 as nat) + seq![45u8] + tail@.subrange(0, 0));
    }
    let mut i: usize = 0;
    while i < tn
        invariant
            0 <= i <= tn,
            tn == tail@.len(),
            bytes@ == spec_dec_bytes(page_id.0 as nat) + seq![45u8] + tail@.subrange(
                0,
                i as int,
            ),
            tail@ == spec_dec_bytes(page_id.1 as nat),
        decreases tn - i,
    {
        bytes.push(tail[i]);
        proof {
            assert(bytes@ =~= spec_dec_bytes(page_id.0 as nat) + seq![45u8] + tail@.subrange(
                0,
                i + 1,
            ));
        }
        i = i + 1;
    }
    proof {
        assert(tail@.subrange(0, tn as int) =~= tail@);
        lemma_dec_bytes_ascii(page_id.0 as nat);
        lemma_dec_bytes_ascii(page_id.1 as nat);
    }
    bytes_to_ascii_string(bytes)
}

} // verus!
