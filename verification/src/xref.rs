//! The cross-reference table: an ordered mapping from object numbers to
//! entries, the parser for the table at the end of a file, the fallback
//! that scans the whole file for object headers, and the validation that
//! every in-use entry points at the header it names.

use vstd::prelude::*;

use crate::error::XrefError;
use crate::object::Dictionary;
use crate::parse::{object_beginning, parse_dict_or_stream, spec_object_beginning};
use crate::numbers::{parse_u16, parse_u32, parse_usize};
use crate::scan::{find_subsequence, skip_ws, spec_matches_any, spec_tag_at, tag_at};
use crate::{GenerationNumber, ObjectNumber};

verus! {

/// One entry of the cross-reference table.
#[derive(Debug, Clone, Copy, PartialEq, Eq, Structural)]
pub enum XrefEntry {
    Free,
    InUse { offset: usize, generation: GenerationNumber },
    Compressed { container: u32, index: u16 },
}

/// The cross-reference table: entries for indirect objects, ordered by
/// ascending object number, and the logical size of the table.
#[derive(Debug, Clone, PartialEq)]
pub struct Xref {
    /// Entries for indirect objects, object-number ascending.
    pub entries: Vec<(ObjectNumber, XrefEntry)>,
    /// Total number of entries (including free entries), equal to the
    /// highest object number plus 1.
    pub size: u32,
}

/// The logical size an entry under `key` forces: one past the key, the
/// running size when that is already larger, saturating at the largest
/// object number.
pub open spec fn spec_bump_size(size: u32, key: u32) -> u32 {
    if key == u32::MAX {
        u32::MAX
    } else if size >= key + 1 {
        size
    } else {
        (key + 1) as u32
    }
}

/// The logical size after inserting the first `i` of `items` into a
/// table of logical size `size`.
pub open spec fn spec_size_after(size: u32, items: Seq<(u32, XrefEntry)>, i: int) -> u32
    decreases i,
{
    if i <= 0 {
        size
    } else {
        spec_bump_size(spec_size_after(size, items, i - 1), items[i - 1].0)
    }
}

impl Xref {
    /// Object numbers strictly ascend: each number appears once and
    /// iteration order is ascending.
    pub open spec fn wf(self) -> bool {
        forall|i: int, j: int|
            0 <= i < j < self.entries@.len() ==> self.entries@[i].0 < self.entries@[j].0
    }

    pub open spec fn spec_contains(self, key: u32) -> bool {
        exists|i: int| 0 <= i < self.entries@.len() && self.entries@[i].0 == key
    }

    pub open spec fn spec_key_idx(self, key: u32) -> int {
        choose|i: int| 0 <= i < self.entries@.len() && self.entries@[i].0 == key
    }

    pub fn new() -> (r: Xref)
        ensures
            r.entries@.len() == 0,
            r.size == 0,
            r.wf(),
    {
        Xref { entries: Vec::new(), size: 0 }
    }

    /// Inserts an entry under `key`, keeping ascending order. An existing
    /// key has its entry replaced and returned.
    #[verifier::rlimit(100)]
    #[verifier::spinoff_prover]
    pub fn insert(&mut self, key: u32, value: XrefEntry) -> (r: Option<XrefEntry>)
        requires
            old(self).wf(),
        ensures
            final(self).wf(),
            final(self).size == spec_bump_size(old(self).size, key),
            final(self).spec_contains(key),
            final(self).entries@[final(self).spec_key_idx(key)].1 == value,
            forall|k: u32|
                k != key ==> (final(self).spec_contains(k) == old(self).spec_contains(k)),
            forall|i: int|
                0 <= i < old(self).entries@.len() && old(self).entries@[i].0 != key
                    ==> final(self).entries@.contains(old(self).entries@[i]),
            forall|i: int|
                0 <= i < final(self).entries@.len() ==> (#[trigger] final(self).entries@[i] == (
                key,
                value,
                ) || old(self).entries@.contains(final(self).entries@[i])),
            forall|k2: u32|
                k2 != key && old(self).spec_contains(k2)
                    ==> #[trigger] final(self).entries@[final(self).spec_key_idx(k2)].1 == old(
                    self,
                ).entries@[old(self).spec_key_idx(k2)].1,
            if old(self).spec_contains(key) {
                &&& final(self).entries@ == old(self).entries@.update(
                    old(self).spec_key_idx(key),
                    (key, value),
                )
                &&& r == Some(old(self).entries@[old(self).spec_key_idx(key)].1)
            } else {
                &&& final(self).entries@.len() == old(self).entries@.len() + 1
                &&& r is None
            },
    {
        if key == u32::MAX {
            self.size = u32::MAX;
        } else if self.size < key + 1 {
            self.size = key + 1;
        }
        let n = self.entries.len();
        let mut i: usize = 0;
        while i < n && self.entries[i].0 < key
            invariant
                0 <= i <= n,
                n == self.entries@.len(),
                self.entries@ == old(self).entries@,
                self.size == spec_bump_size(old(self).size, key),
                self.wf(),
                forall|m: int| 0 <= m < i ==> self.entries@[m].0 < key,
            decreases n - i,
        {
            i = i + 1;
        }
        if i < n && self.entries[i].0 == key {
            proof {
                assert(self.spec_contains(key));
                let j = self.spec_key_idx(key);
                if j != i as int {
                    assert(self.entries@[j].0 == key);
                    assert(false);
                }
            }
            let prior = self.entries.remove(i);
            self.entries.insert(i, (key, value));
            proof {
                assert(self.entries@ =~= old(self).entries@.update(i as int, (key, value)));
                assert(self.entries@[i as int].0 == key);
                assert(self.spec_contains(key));
                let j = self.spec_key_idx(key);
                if j != i as int {
                    assert(self.entries@[j].0 == key);
                    assert(old(self).entries@[j].0 == key);
                    assert(false);
                }
                assert forall|k: u32| k != key implies (self.spec_contains(k) == old(
                    self,
                ).spec_contains(k)) by {
                    if old(self).spec_contains(k) {
                        let m = old(self).spec_key_idx(k);
                        assert(self.entries@[m].0 == k);
                    }
                    if self.spec_contains(k) {
                        let m = self.spec_key_idx(k);
                        assert(old(self).entries@[m].0 == k);
                    }
                }
                assert forall|m: int|
                    0 <= m < old(self).entries@.len() && old(self).entries@[m].0
                        != key implies self.entries@.contains(old(self).entries@[m]) by {
                    assert(self.entries@[m] == old(self).entries@[m]);
                }
                assert forall|k2: u32|
                    k2 != key && old(self).spec_contains(k2) implies #[trigger] self.entries@[
                    self.spec_key_idx(k2)].1 == old(self).entries@[old(self).spec_key_idx(
                    k2,
                )].1 by {
                    let mo = old(self).spec_key_idx(k2);
                    assert(old(self).entries@[mo].0 == k2);
                    assert(self.entries@[mo].0 == k2);
                    assert(self.spec_contains(k2));
                    let mn = self.spec_key_idx(k2);
                    assert(self.entries@[mn].0 == k2);
                    if mn != mo {
                        assert(false);
                    }
                }
            }
            return Some(prior.1);
        }
        // `key` is absent; `i` is the position where ascending order puts it
        self.entries.insert(i, (key, value));
        proof {
            let olds = old(self).entries@;
            assert(self.entries@ =~= olds.subrange(0, i as int).push((key, value)) + olds.subrange(
                i as int,
                olds.len() as int,
            ));
            assert(self.entries@[i as int].0 == key);
            assert(self.spec_contains(key));
            if olds.len() > i {
                // the scan stopped at the first larger key
                assert(olds[i as int].0 > key);
            }
            // the new table is still strictly ascending
            assert forall|a: int, b: int|
                0 <= a < b < self.entries@.len() implies self.entries@[a].0
                < self.entries@[b].0 by {
                if a < i && b == i {
                } else if a == i && b > i {
                    assert(self.entries@[b] == olds[b - 1]);
                    if b - 1 > i as int {
                        assert(olds[i as int].0 < olds[b - 1].0);
                    }
                } else if a < i && b > i {
                    assert(self.entries@[a] == olds[a]);
                    assert(self.entries@[b] == olds[b - 1]);
                } else if a > i && b > i {
                    assert(self.entries@[a] == olds[a - 1]);
                    assert(self.entries@[b] == olds[b - 1]);
                } else if a < i && b < i {
                    assert(self.entries@[a] == olds[a]);
                    assert(self.entries@[b] == olds[b]);
                }
            }
            let j = self.spec_key_idx(key);
            if j != i as int {
                assert(self.entries@[j].0 == key);
                assert(false);
            }
            assert forall|k: u32| k != key implies (self.spec_contains(k) == old(
                self,
            ).spec_contains(k)) by {
                if old(self).spec_contains(k) {
                    let m = old(self).spec_key_idx(k);
                    assert(olds[m].0 == k);
                    if m < i as int {
                        assert(self.entries@[m].0 == k);
                    } else {
                        assert(self.entries@[m + 1].0 == k);
                    }
                }
                if self.spec_contains(k) {
                    let m = self.spec_key_idx(k);
                    assert(self.entries@[m].0 == k);
                    if m < i as int {
                        assert(olds[m].0 == k);
                    } else {
                        assert(m != i as int);
                        assert(olds[m - 1].0 == k);
                    }
                }
            }
            assert forall|m: int|
                0 <= m < olds.len() && olds[m].0 != key implies self.entries@.contains(
                olds[m],
            ) by {
                if m < i as int {
                    assert(self.entries@[m] == olds[m]);
                } else {
                    assert(self.entries@[m + 1] == olds[m]);
                }
            }
            assert forall|k2: u32|
                k2 != key && old(self).spec_contains(k2) implies #[trigger] self.entries@[
                self.spec_key_idx(k2)].1 == old(self).entries@[old(self).spec_key_idx(k2)].1 by {
                let mo = old(self).spec_key_idx(k2);
                assert(olds[mo].0 == k2);
                let ghost shifted: int = if mo < i as int {
                    mo
                } else {
                    mo + 1
                };
                assert(self.entries@[shifted].0 == k2);
                assert(self.entries@[shifted].1 == olds[mo].1);
                assert(self.spec_contains(k2));
                let mn = self.spec_key_idx(k2);
                assert(self.entries@[mn].0 == k2);
                if mn != shifted {
                    assert(false);
                }
            }
        }
        None
    }

    /// Inserts every pair of `items`, in order.
    pub fn extend(&mut self, items: Vec<(u32, XrefEntry)>)
        requires
            old(self).wf(),
        ensures
            final(self).wf(),
            final(self).size == spec_size_after(old(self).size, items@, items@.len() as int),
            forall|i: int|
                0 <= i < items@.len() ==> final(self).spec_contains(#[trigger] items@[i].0),
    {
        let n = items.len();
        let mut k: usize = 0;
        while k < n
            invariant
                0 <= k <= n,
                n == items@.len(),
                self.wf(),
                self.size == spec_size_after(old(self).size, items@, k as int),
                forall|i: int| 0 <= i < k ==> self.spec_contains(#[trigger] items@[i].0),
            decreases n - k,
        {
            let (key, value) = items[k];
            self.insert(key, value);
            proof {
                assert forall|i: int| 0 <= i < k + 1 implies self.spec_contains(
                    #[trigger] items@[i].0,
                ) by {
                    if i < k {
                        if items@[i].0 != key {
                        }
                    }
                }
            }
            k = k + 1;
        }
    }

    /// Number of entries.
    pub fn len(&self) -> (r: usize)
        ensures
            r == self.entries@.len(),
    {
        self.entries.len()
    }

    /// The entry at `idx`, in ascending object-number order.
    pub fn entry_at(&self, idx: usize) -> (r: (u32, XrefEntry))
        requires
            idx < self.entries@.len(),
        ensures
            r == self.entries@[idx as int],
    {
        self.entries[idx]
    }
}

/// Every in-use entry points at a byte offset where the header of exactly
/// its object begins, and no entry is of the unimplemented compressed
/// kind.
pub open spec fn spec_xref_accurate(input: Seq<u8>, xref: Xref) -> bool {
    forall|i: int|
        0 <= i < xref.entries@.len() ==> match #[trigger] xref.entries@[i].1 {
            XrefEntry::Free => true,
            XrefEntry::InUse { offset, generation } => spec_object_beginning(input, offset as int)
                == Some((xref.entries@[i].0, generation)),
            XrefEntry::Compressed { .. } => false,
        }
}

/// One `offset generation f|n` line beginning at `q` (leading whitespace
/// already consumed): the entry it spells and the position after it.
pub open spec fn spec_xref_line(s: Seq<u8>, q: int) -> Option<(int, XrefEntry)> {
    let oe = crate::scan::spec_digits_end(s, q);
    let g = skip_spec(s, oe);
    let ge = crate::scan::spec_digits_end(s, g);
    let st = skip_spec(s, ge);
    if oe > q && crate::scan::spec_digits_val(s, q, oe) <= usize::MAX && ge > g
        && crate::scan::spec_digits_val(s, g, ge) <= u16::MAX && 0 <= st < s.len() && (s[st]
        == 102 || s[st] == 110) {
        let entry = if s[st] == 102 {
            XrefEntry::Free
        } else {
            XrefEntry::InUse {
                offset: crate::scan::spec_digits_val(s, q, oe) as usize,
                generation: crate::scan::spec_digits_val(s, g, ge) as u16,
            }
        };
        Some((skip_spec(s, st + 1), entry))
    } else {
        None
    }
}

/// Shorthand for the whitespace-and-comment skip.
pub open spec fn skip_spec(s: Seq<u8>, pos: int) -> int {
    crate::scan::spec_skip_ws(s, pos)
}

/// The remaining lines of a sub-section: entries `first + j` up to
/// `first + count - 1`, read from `q`; `None` when a line is malformed or
/// an object number overflows.
pub open spec fn spec_section_lines(s: Seq<u8>, q: int, first: int, j: int, count: int) -> Option<
    (int, Seq<(u32, XrefEntry)>),
>
    decreases count - j,
{
    if j >= count {
        Some((q, Seq::empty()))
    } else if first + j > u32::MAX {
        None
    } else {
        match spec_xref_line(s, q) {
            None => None,
            Some((q2, e)) => match spec_section_lines(s, q2, first, j + 1, count) {
                None => None,
                Some((end, rest)) => Some((end, seq![((first + j) as u32, e)] + rest)),
            },
        }
    }
}

/// A sub-section header stands at `p`: two unsigned numbers that fit.
pub open spec fn spec_xref_header(s: Seq<u8>, p: int) -> bool {
    let fe = crate::scan::spec_digits_end(s, p);
    let c = skip_spec(s, fe);
    let ce = crate::scan::spec_digits_end(s, c);
    &&& fe > p
    &&& crate::scan::spec_digits_val(s, p, fe) <= u32::MAX
    &&& ce > c
    &&& crate::scan::spec_digits_val(s, c, ce) <= u32::MAX
}

proof fn lemma_xref_line_bounds(s: Seq<u8>, q: int)
    requires
        0 <= q <= s.len(),
    ensures
        match spec_xref_line(s, q) {
            Some((q2, _)) => q < q2 <= s.len(),
            None => true,
        },
{
    crate::scan::lemma_digits_end_props(s, q);
    let oe = crate::scan::spec_digits_end(s, q);
    crate::scan::lemma_skip_ws_bounds(s, oe);
    let g = skip_spec(s, oe);
    crate::scan::lemma_digits_end_props(s, g);
    let ge = crate::scan::spec_digits_end(s, g);
    crate::scan::lemma_skip_ws_bounds(s, ge);
    let st = skip_spec(s, ge);
    if spec_xref_line(s, q) is Some {
        crate::scan::lemma_skip_ws_bounds(s, st + 1);
    }
}

proof fn lemma_section_lines_bounds(s: Seq<u8>, q: int, first: int, j: int, count: int)
    requires
        0 <= q <= s.len(),
    ensures
        match spec_section_lines(s, q, first, j, count) {
            Some((end, _)) => q <= end <= s.len(),
            None => true,
        },
    decreases count - j,
{
    if j < count && first + j <= u32::MAX {
        lemma_xref_line_bounds(s, q);
        match spec_xref_line(s, q) {
            None => {},
            Some((q2, _)) => {
                lemma_section_lines_bounds(s, q2, first, j + 1, count);
            },
        }
    }
}

/// The sub-sections from `p`: headers followed by their lines, until no
/// further header stands; `None` when a section's lines are malformed or
/// fail to advance the position.
pub open spec fn spec_sections(s: Seq<u8>, p: int) -> Option<(int, Seq<(u32, XrefEntry)>)>
    decreases s.len() - p,
    via spec_sections_decreases
{
    if p < 0 || p > s.len() {
        None
    } else if !spec_xref_header(s, p) {
        Some((p, Seq::empty()))
    } else {
        let fe = crate::scan::spec_digits_end(s, p);
        let first = crate::scan::spec_digits_val(s, p, fe);
        let c = skip_spec(s, fe);
        let ce = crate::scan::spec_digits_end(s, c);
        let count = crate::scan::spec_digits_val(s, c, ce);
        let q0 = skip_spec(s, ce);
        match spec_section_lines(s, q0, first as int, 0, count as int) {
            None => None,
            Some((q2, lines)) => if q2 <= p {
                None
            } else {
                match spec_sections(s, q2) {
                    None => None,
                    Some((end, rest)) => Some((end, lines + rest)),
                }
            },
        }
    }
}

#[via_fn]
proof fn spec_sections_decreases(s: Seq<u8>, p: int) {
    if 0 <= p <= s.len() && spec_xref_header(s, p) {
        let fe = crate::scan::spec_digits_end(s, p);
        crate::scan::lemma_digits_end_props(s, p);
        crate::scan::lemma_skip_ws_bounds(s, fe);
        let c = skip_spec(s, fe);
        crate::scan::lemma_digits_end_props(s, c);
        let ce = crate::scan::spec_digits_end(s, c);
        crate::scan::lemma_skip_ws_bounds(s, ce);
        let q0 = skip_spec(s, ce);
        let first = crate::scan::spec_digits_val(s, p, fe);
        let count = crate::scan::spec_digits_val(s, c, ce);
        lemma_section_lines_bounds(s, q0, first as int, 0, count as int);
    }
}

/// Some line carries `id`.
pub open spec fn spec_lines_contain(lines: Seq<(u32, XrefEntry)>, id: u32) -> bool {
    exists|m: int| 0 <= m < lines.len() && (#[trigger] lines[m]).0 == id
}

/// The entry of the last line that carries `id`: a repeated object number
/// takes the later line.
pub open spec fn spec_lines_last(lines: Seq<(u32, XrefEntry)>, id: u32) -> XrefEntry
    decreases lines.len(),
{
    if lines.len() == 0 {
        XrefEntry::Free
    } else if lines.last().0 == id {
        lines.last().1
    } else {
        spec_lines_last(lines.drop_last(), id)
    }
}

/// How one more line changes what the lines carry.
proof fn lemma_lines_push(lines: Seq<(u32, XrefEntry)>, k: u32, v: XrefEntry)
    ensures
        forall|id: u32|
            spec_lines_contain(lines.push((k, v)), id) <==> (id == k || spec_lines_contain(
                lines,
                id,
            )),
        spec_lines_last(lines.push((k, v)), k) == v,
        forall|id: u32|
            id != k ==> spec_lines_last(lines.push((k, v)), id) == spec_lines_last(lines, id),
{
    let lp = lines.push((k, v));
    assert(lp.last() == (k, v));
    assert(lp.drop_last() =~= lines);
    assert forall|id: u32|
        spec_lines_contain(lp, id) <==> (id == k || spec_lines_contain(lines, id)) by {
        if spec_lines_contain(lp, id) {
            let m = choose|m: int| 0 <= m < lp.len() && (#[trigger] lp[m]).0 == id;
            if m < lines.len() {
                assert(lines[m].0 == id);
            }
        }
        if id == k {
            assert(lp[lines.len() as int].0 == id);
        }
        if spec_lines_contain(lines, id) {
            let m = choose|m: int| 0 <= m < lines.len() && (#[trigger] lines[m]).0 == id;
            assert(lp[m].0 == id);
        }
    }
}

/// Parses one table line `offset generation f|n` at `q`.
fn parse_xref_line_at(input: &[u8], q: usize) -> (r: Option<(usize, XrefEntry)>)
    requires
        q <= input@.len(),
    ensures
        match r {
            Some((q2, e)) => spec_xref_line(input@, q as int) == Some(((q2 as int, e))) && q
                < q2 <= input@.len(),
            None => spec_xref_line(input@, q as int) is None,
        },
{
    let n = input.len();
    let (q1, off) = match parse_usize(input, q) {
        None => {
            return None;
        },
        Some(x) => x,
    };
    let q2 = skip_ws(input, q1);
    let (q3, gen) = match parse_u16(input, q2) {
        None => {
            return None;
        },
        Some(x) => x,
    };
    let q4 = skip_ws(input, q3);
    if q4 >= n {
        return None;
    }
    let status = input[q4];
    let entry = if status == 102 {
        XrefEntry::Free
    } else if status == 110 {
        XrefEntry::InUse { offset: off, generation: gen }
    } else {
        return None;
    };
    Some((skip_ws(input, q4 + 1), entry))
}

/// Parses the cross-reference table at `offset`: the keyword `xref`, then
/// one or more sub-sections `first count` followed by `count` lines of
/// `offset generation f|n`. Succeeds exactly when the keyword, a first
/// header and every announced line are present; the table then holds
/// exactly the objects the lines name, each with its last line's entry.
#[verifier::rlimit(100)]
pub fn parse_xref_table(input: &[u8], offset: usize) -> (r: Option<(usize, Xref)>)
    requires
        offset <= input@.len(),
    ensures
        ({
            let w = skip_spec(input@, offset as int);
            let p0 = skip_spec(input@, w + 4);
            match r {
                Some((end, x)) => {
                    &&& offset <= end <= input@.len()
                    &&& x.wf()
                    &&& spec_tag_at(input@, w, seq![120u8, 114u8, 101u8, 102u8])
                    &&& spec_xref_header(input@, p0)
                    &&& spec_sections(input@, p0) matches Some(sr) && sr.0 == end && (forall|
                        id: u32,
                    |
                        #[trigger] x.spec_contains(id) <==> spec_lines_contain(sr.1, id)) && (
                    forall|id: u32|
                        #[trigger] x.spec_contains(id) ==> x.entries@[x.spec_key_idx(id)].1
                            == spec_lines_last(sr.1, id))
                },
                None => !spec_tag_at(input@, w, seq![120u8, 114u8, 101u8, 102u8])
                    || !spec_xref_header(input@, p0) || spec_sections(input@, p0) is None,
            }
        }),
{
    let n = input.len();
    let w = skip_ws(input, offset);
    let kw = vec![120u8, 114u8, 101u8, 102u8];
    proof {
        assert(kw@ =~= seq![120u8, 114u8, 101u8, 102u8]);
    }
    if !tag_at(input, w, kw.as_slice()) {
        return None;
    }
    proof {
        assert(w + 4 <= n);
    }
    let p0 = skip_ws(input, w + 4);
    let mut p = p0;
    let mut table = Xref::new();
    let mut sections: usize = 0;
    let ghost mut done: Seq<(u32, XrefEntry)> = Seq::empty();
    loop
        invariant
            offset <= p <= n,
            p0 == skip_spec(input@, skip_spec(input@, offset as int) + 4),
            p0 <= p,
            n == input@.len(),
            table.wf(),
            sections <= p,
            sections == 0 ==> p == p0 && done =~= Seq::<(u32, XrefEntry)>::empty(),
            sections > 0 ==> spec_xref_header(input@, p0 as int),
            match spec_sections(input@, p as int) {
                Some(sr) => spec_sections(input@, p0 as int) == Some(
                    ((sr.0, done + sr.1)),
                ),
                None => spec_sections(input@, p0 as int) is None,
            },
            forall|id: u32| #[trigger] table.spec_contains(id) <==> spec_lines_contain(done, id),
            forall|id: u32|
                #[trigger] table.spec_contains(id) ==> table.entries@[table.spec_key_idx(id)].1
                    == spec_lines_last(done, id),
        ensures
            !spec_xref_header(input@, p as int),
        decreases n - p,
    {
        // sub-section header: first object number, then entry count
        let (p1, first) = match parse_u32(input, p) {
            None => {
                proof {
                    assert(!spec_xref_header(input@, p as int));
                    assert(spec_sections(input@, p as int) == Some(
                        ((p as int, Seq::<(u32, XrefEntry)>::empty())),
                    ));
                    assert(done + Seq::<(u32, XrefEntry)>::empty() =~= done);
                }
                break ;
            },
            Some(x) => x,
        };
        let p2 = skip_ws(input, p1);
        let (p3, count) = match parse_u32(input, p2) {
            None => {
                proof {
                    assert(!spec_xref_header(input@, p as int));
                    assert(spec_sections(input@, p as int) == Some(
                        ((p as int, Seq::<(u32, XrefEntry)>::empty())),
                    ));
                    assert(done + Seq::<(u32, XrefEntry)>::empty() =~= done);
                }
                break ;
            },
            Some(x) => x,
        };
        proof {
            assert(spec_xref_header(input@, p as int));
        }
        let q_start = skip_ws(input, p3);
        let mut q = q_start;
        let mut j: u32 = 0;
        let ghost mut sec: Seq<(u32, XrefEntry)> = Seq::empty();
        while j < count
            invariant
                0 <= j <= count,
                q_start <= q <= n,
                p3 <= q_start,
                n == input@.len(),
                table.wf(),
                sec.len() == j,
                offset <= p <= n,
                p0 == skip_spec(input@, skip_spec(input@, offset as int) + 4),
                spec_xref_header(input@, p as int),
                ({
                    let fe = crate::scan::spec_digits_end(input@, p as int);
                    let c = skip_spec(input@, fe);
                    let ce = crate::scan::spec_digits_end(input@, c);
                    &&& first == crate::scan::spec_digits_val(input@, p as int, fe)
                    &&& count == crate::scan::spec_digits_val(input@, c, ce)
                    &&& q_start == skip_spec(input@, ce)
                }),
                match spec_sections(input@, p as int) {
                    Some(sr) => spec_sections(input@, p0 as int) == Some(
                        ((sr.0, done + sr.1)),
                    ),
                    None => spec_sections(input@, p0 as int) is None,
                },
                match spec_section_lines(input@, q as int, first as int, j as int, count as int) {
                    Some(lr) => spec_section_lines(
                        input@,
                        q_start as int,
                        first as int,
                        0,
                        count as int,
                    ) == Some(((lr.0, sec + lr.1))),
                    None => spec_section_lines(
                        input@,
                        q_start as int,
                        first as int,
                        0,
                        count as int,
                    ) is None,
                },
                forall|id: u32|
                    #[trigger] table.spec_contains(id) <==> spec_lines_contain(done + sec, id),
                forall|id: u32|
                    #[trigger] table.spec_contains(id) ==> table.entries@[table.spec_key_idx(
                        id,
                    )].1 == spec_lines_last(done + sec, id),
            decreases count - j,
        {
            let ghost q_in = q as int;
            let (q_next, entry) = match parse_xref_line_at(input, q) {
                None => {
                    proof {
                        assert(spec_section_lines(
                            input@,
                            q_in,
                            first as int,
                            j as int,
                            count as int,
                        ) is None);
                        assert(spec_sections(input@, p as int) is None);
                    }
                    return None;
                },
                Some(x) => x,
            };
            if j > u32::MAX - first {
                proof {
                    assert(first as int + j as int > u32::MAX);
                    assert(spec_section_lines(
                        input@,
                        q_in,
                        first as int,
                        j as int,
                        count as int,
                    ) is None);
                    assert(spec_sections(input@, p as int) is None);
                }
                return None;
            }
            let key = first + j;
            let ghost prior_table = table;
            table.insert(key, entry);
            proof {
                lemma_lines_push(done + sec, key, entry);
                assert((done + sec).push((key, entry)) =~= done + sec.push((key, entry)));
                assert forall|id: u32|
                    #[trigger] table.spec_contains(id) <==> spec_lines_contain(
                        done + sec.push((key, entry)),
                        id,
                    ) by {}
                assert forall|id: u32|
                    #[trigger] table.spec_contains(id) implies table.entries@[
                    table.spec_key_idx(id)].1 == spec_lines_last(
                        done + sec.push((key, entry)),
                        id,
                    ) by {
                    if id != key {
                        assert(prior_table.spec_contains(id));
                    }
                }
            }
            q = q_next;
            proof {
                let lr0 = spec_section_lines(
                    input@,
                    q as int,
                    first as int,
                    j + 1,
                    count as int,
                );
                assert(spec_section_lines(input@, q_in, first as int, j as int, count as int)
                    == (match lr0 {
                    Some(lr) => Some(
                        ((lr.0, seq![(key, entry)] + lr.1)),
                    ),
                    None => None::<(int, Seq<(u32, XrefEntry)>)>,
                }));
                if lr0 is Some {
                    assert(sec + (seq![(key, entry)] + lr0.unwrap().1) =~= sec.push(
                        (key, entry),
                    ) + lr0.unwrap().1);
                }
            }
            proof {
                sec = sec.push((key, entry));
            }
            j = j + 1;
        }
        proof {
            assert(spec_section_lines(input@, q as int, first as int, j as int, count as int)
                == Some(((q as int, Seq::<(u32, XrefEntry)>::empty()))));
            assert(sec + Seq::<(u32, XrefEntry)>::empty() =~= sec);
            assert(spec_section_lines(input@, q_start as int, first as int, 0, count as int)
                == Some(((q as int, sec))));
        }
        if q <= p {
            // a sub-section must advance the position
            proof {
                assert(spec_sections(input@, p as int) is None);
            }
            return None;
        }
        proof {
            let sr0 = spec_sections(input@, q as int);
            assert(spec_sections(input@, p as int) == (match sr0 {
                Some(sr) => Some(((sr.0, sec + sr.1))),
                None => None::<(int, Seq<(u32, XrefEntry)>)>,
            }));
            if sr0 is Some {
                assert(done + (sec + sr0.unwrap().1) =~= (done + sec) + sr0.unwrap().1);
            }
        }
        proof {
            done = done + sec;
        }
        sections = sections + 1;
        p = q;
    }
    if sections == 0 {
        proof {
            assert(!spec_xref_header(input@, p0 as int));
        }
        return None;
    }
    proof {
        assert(spec_sections(input@, p0 as int) == Some(((p as int, done))));
    }
    Some((p, table))
}

/// The `xref` keyword.
pub open spec fn spec_xref_kw() -> Seq<u8> {
    seq![120u8, 114u8, 101u8, 102u8]
}

/// The `trailer` keyword.
pub open spec fn spec_trailer_kw() -> Seq<u8> {
    seq![116u8, 114u8, 97u8, 105u8, 108u8, 101u8, 114u8]
}

/// The `trailer` keyword followed by a closed dictionary region stands
/// after the whitespace at `pos`.
pub open spec fn spec_trailer_ok(s: Seq<u8>, pos: int) -> bool {
    let w = skip_spec(s, pos);
    &&& spec_tag_at(s, w, spec_trailer_kw())
    &&& crate::parse::spec_dict_region_ok(s, skip_spec(s, w + 7))
}

/// The dictionary after the `trailer` keyword at `lk` is exactly what
/// its region's pair chain yields.
pub open spec fn spec_trailer_dict_at(s: Seq<u8>, lk: int, t: Dictionary) -> bool {
    let p = skip_spec(s, lk + 7);
    let dw = skip_spec(s, p);
    let rs = skip_spec(s, dw + 2);
    let rg = crate::scan::spec_balanced_end(s, rs, seq![60u8, 60u8], seq![62u8, 62u8], 0);
    rg matches Some(bend) && crate::parse::spec_dict_parsed(s.subrange(rs, bend), t)
}

/// Parses the keyword `trailer` followed by its dictionary. Succeeds
/// exactly when the keyword and a closed dictionary region follow.
pub fn parse_trailer(input: &[u8], pos: usize) -> (r: Option<(usize, Dictionary)>)
    requires
        pos <= input@.len(),
    ensures
        r is Some <==> spec_trailer_ok(input@, pos as int),
        match r {
            Some((end, d)) => {
                &&& pos <= end <= input@.len()
                &&& crate::object::spec_dict_sound(input@, d)
                &&& spec_trailer_dict_at(input@, skip_spec(input@, pos as int), d)
            },
            None => true,
        },
{
    let n = input.len();
    let w = skip_ws(input, pos);
    let kw = vec![116u8, 114u8, 97u8, 105u8, 108u8, 101u8, 114u8];
    proof {
        assert(kw@ =~= seq![116u8, 114u8, 97u8, 105u8, 108u8, 101u8, 114u8]);
    }
    if !tag_at(input, w, kw.as_slice()) {
        return None;
    }
    proof {
        assert(w + 7 <= n);
    }
    let p = skip_ws(input, w + 7);
    match parse_dict_or_stream(input, p) {
        None => None,
        Some((end, o)) => {
            let ghost go = o;
            match o {
                crate::object::Object::Dictionary(d) => {
                    proof {
                        assert(crate::object::spec_object_sound(input@, go));
                        assert(crate::object::spec_dict_sound(input@, d));
                    }
                    Some((end, d))
                },
                crate::object::Object::Stream(st) => {
                    proof {
                        assert(crate::object::spec_object_sound(input@, go));
                        assert(crate::object::spec_dict_sound(input@, st.dict));
                    }
                    Some((end, st.dict))
                },
                _ => {
                    proof {
                        assert(false);
                    }
                    None
                },
            }
        },
    }
}

/// A usable number follows the `startxref` keyword at `k`: a digit run
/// that fits a machine offset.
pub open spec fn spec_sx_number_ok(w: Seq<u8>, k: int) -> bool {
    let d = crate::scan::spec_skip_ws(w, k + 9);
    let de = crate::scan::spec_digits_end(w, d);
    de > d && crate::scan::spec_digits_val(w, d, de) <= usize::MAX
}

/// The value of the number after the `startxref` keyword at `k`.
pub open spec fn spec_sx_number(w: Seq<u8>, k: int) -> nat {
    let d = crate::scan::spec_skip_ws(w, k + 9);
    crate::scan::spec_digits_val(w, d, crate::scan::spec_digits_end(w, d))
}

/// The `startxref` keyword at `k` is the one the forward scan settles
/// on: no keyword follows it, or the next keyword that follows has no
/// usable number, which stops the scan.
pub open spec fn spec_sx_settled(w: Seq<u8>, k: int) -> bool {
    ||| forall|j: int| j > k ==> !#[trigger] spec_tag_at(w, j, spec_startxref_kw())
    ||| exists|j0: int|
        {
            &&& j0 > k
            &&& #[trigger] spec_tag_at(w, j0, spec_startxref_kw())
            &&& !spec_sx_number_ok(w, j0)
            &&& forall|j: int| k < j < j0 ==> !spec_tag_at(w, j, spec_startxref_kw())
        }
}

/// Finds the byte offset named by the `startxref` keyword the scan
/// settles on: keywords are read in order, each number seen replaces
/// the last, and a keyword without a usable number stops the scan.
/// Nothing comes back only when no keyword occurs or the first one has
/// no usable number after it.
pub fn final_xref_offset(window: &[u8]) -> (r: Option<usize>)
    ensures
        match r {
            Some(v) => exists|k: int|
                {
                    &&& 0 <= k
                    &&& #[trigger] spec_tag_at(window@, k, spec_startxref_kw())
                    &&& spec_sx_number_ok(window@, k)
                    &&& v == spec_sx_number(window@, k)
                    &&& spec_sx_settled(window@, k)
                },
            None => match crate::scan::spec_find_tag(window@, 0, spec_startxref_kw()) {
                None => true,
                Some(k0) => !spec_sx_number_ok(window@, k0),
            },
        },
{
    let n = window.len();
    let kw = vec![115u8, 116u8, 97u8, 114u8, 116u8, 120u8, 114u8, 101u8, 102u8];
    proof {
        assert(kw@ =~= seq![115u8, 116u8, 97u8, 114u8, 116u8, 120u8, 114u8, 101u8, 102u8]);
    }
    let mut cur: usize = 0;
    let mut best: Option<usize> = None;
    loop
        invariant
            0 <= cur <= n,
            n == window@.len(),
            kw@ == spec_startxref_kw(),
            match best {
                Some(v) => exists|k: int|
                    {
                        &&& 0 <= k && k + 9 <= cur
                        &&& #[trigger] spec_tag_at(window@, k, spec_startxref_kw())
                        &&& spec_sx_number_ok(window@, k)
                        &&& v == spec_sx_number(window@, k)
                        &&& forall|j: int|
                            k < j < cur ==> !spec_tag_at(window@, j, spec_startxref_kw())
                    },
                None => cur == 0,
            },
        ensures
            match best {
                Some(v) => exists|k: int|
                    {
                        &&& 0 <= k
                        &&& #[trigger] spec_tag_at(window@, k, spec_startxref_kw())
                        &&& spec_sx_number_ok(window@, k)
                        &&& v == spec_sx_number(window@, k)
                        &&& spec_sx_settled(window@, k)
                    },
                None => match crate::scan::spec_find_tag(window@, 0, spec_startxref_kw()) {
                    None => true,
                    Some(k0) => !spec_sx_number_ok(window@, k0),
                },
            },
        decreases n - cur,
    {
        let tail = vstd::slice::slice_subrange(window, cur, n);
        let mut needles: Vec<&[u8]> = Vec::new();
        needles.push(kw.as_slice());
        proof {
            assert(needles@[0]@ == kw@);
        }
        let ghost nsview = needles@;
        match find_subsequence(tail, needles) {
            None => {
                proof {
                    assert forall|j: int| j >= cur implies !(#[trigger] spec_tag_at(
                        window@,
                        j,
                        spec_startxref_kw(),
                    )) by {
                        crate::scan::lemma_tag_in_window(window@, cur as int, tail@, kw@, j - cur);
                        if spec_tag_at(tail@, j - cur, kw@) {
                            assert(spec_matches_any(tail@, nsview, j - cur));
                        }
                    }
                    match best {
                        Some(_) => {
                            let k = choose|k: int|
                                {
                                    &&& 0 <= k && k + 9 <= cur
                                    &&& #[trigger] spec_tag_at(window@, k, spec_startxref_kw())
                                    &&& spec_sx_number_ok(window@, k)
                                    &&& best->0 == spec_sx_number(window@, k)
                                    &&& forall|j: int|
                                        k < j < cur ==> !spec_tag_at(
                                            window@,
                                            j,
                                            spec_startxref_kw(),
                                        )
                                };
                            assert(spec_sx_settled(window@, k));
                        },
                        None => {
                            assert forall|j: int| 0 <= j implies !(#[trigger] spec_tag_at(
                                window@,
                                0 + j,
                                kw@,
                            )) by {
                                assert(!spec_tag_at(window@, j, spec_startxref_kw()));
                            }
                            crate::scan::lemma_find_tag_none(window@, 0, kw@);
                        },
                    }
                }
                break ;
            },
            Some(k) => {
                proof {
                    assert(spec_matches_any(tail@, nsview, k as int));
                    let m = choose|m: int|
                        0 <= m < nsview.len() && spec_tag_at(tail@, k as int, nsview[m]@);
                    assert(m == 0);
                    assert(spec_tag_at(tail@, k as int, kw@));
                    crate::scan::lemma_tag_in_window(window@, cur as int, tail@, kw@, k as int);
                    assert(spec_tag_at(window@, cur + k, kw@));
                    assert(cur + k + 9 <= n);
                    assert forall|j: int| cur <= j < cur + k implies !(#[trigger] spec_tag_at(
                        window@,
                        j,
                        spec_startxref_kw(),
                    )) by {
                        crate::scan::lemma_tag_in_window(window@, cur as int, tail@, kw@, j - cur);
                        if spec_tag_at(tail@, j - cur, kw@) {
                            assert(spec_matches_any(tail@, nsview, j - cur));
                        }
                    }
                }
                let ghost ka: int = cur + k;
                proof {
                    assert forall|j: int| ka < j < ka + 9 implies !(#[trigger] spec_tag_at(
                        window@,
                        j,
                        spec_startxref_kw(),
                    )) by {
                        if spec_tag_at(window@, j, spec_startxref_kw()) {
                            let t = j - ka;
                            assert(window@.subrange(ka, ka + 9) == kw@);
                            assert(window@[ka + t] == window@.subrange(ka, ka + 9)[t]);
                            assert(window@[j] == kw@[t]);
                            assert(window@.subrange(j, j + 9) == kw@);
                            assert(window@[j + 0] == window@.subrange(j, j + 9)[0]);
                            assert(window@[j] == 115);
                        }
                    }
                }
                let after = cur + k + 9;
                let w2 = skip_ws(window, after);
                match parse_usize(window, w2) {
                    None => {
                        proof {
                            assert(!spec_sx_number_ok(window@, ka));
                            match best {
                                Some(_) => {
                                    let kb = choose|kb: int|
                                        {
                                            &&& 0 <= kb && kb + 9 <= cur
                                            &&& #[trigger] spec_tag_at(
                                                window@,
                                                kb,
                                                spec_startxref_kw(),
                                            )
                                            &&& spec_sx_number_ok(window@, kb)
                                            &&& best->0 == spec_sx_number(window@, kb)
                                            &&& forall|j: int|
                                                kb < j < cur ==> !spec_tag_at(
                                                    window@,
                                                    j,
                                                    spec_startxref_kw(),
                                                )
                                        };
                                    assert forall|j: int|
                                        kb < j < ka implies !spec_tag_at(
                                        window@,
                                        j,
                                        spec_startxref_kw(),
                                    ) by {}
                                    assert(spec_sx_settled(window@, kb));
                                },
                                None => {
                                    assert(cur == 0);
                                    assert forall|j: int| 0 <= j < ka implies !(
                                    #[trigger] spec_tag_at(window@, 0 + j, kw@)) by {
                                        assert(!spec_tag_at(window@, j, spec_startxref_kw()));
                                    }
                                    crate::scan::lemma_find_tag_some(window@, 0, kw@, ka);
                                },
                            }
                        }
                        break ;
                    },
                    Some((_, v)) => {
                        best = Some(v);
                        proof {
                            assert(spec_tag_at(window@, ka, spec_startxref_kw()));
                            assert(spec_sx_number_ok(window@, ka));
                            assert(v == spec_sx_number(window@, ka));
                        }
                    },
                }
                cur = after;
            },
        }
    }
    best
}

/// The first position at or after `pos` holding a digit, or the input's
/// length.
pub open spec fn spec_next_digit(s: Seq<u8>, pos: int) -> int
    decreases s.len() - pos,
{
    if pos < 0 || pos >= s.len() {
        s.len() as int
    } else if crate::scan::spec_is_digit(s[pos]) {
        pos
    } else {
        spec_next_digit(s, pos + 1)
    }
}

/// The whole-file header scan: each `N G obj` header the scan reaches is
/// recorded with the position the scan stood at; after a header the scan
/// continues behind its keyword, otherwise it hops to the next digit.
pub open spec fn spec_scan_objects(s: Seq<u8>, pos: int) -> Seq<(crate::ObjectId, int)>
    decreases s.len() - pos,
    via spec_scan_objects_decreases
{
    if pos < 0 || pos >= s.len() {
        Seq::empty()
    } else {
        match spec_object_beginning(s, pos) {
            Some(id) => seq![(id, pos)] + spec_scan_objects(s, crate::parse::spec_object_beginning_end(s, pos)),
            None => if crate::scan::spec_is_digit(s[pos]) {
                spec_scan_objects(s, pos + 1)
            } else {
                spec_scan_objects(s, spec_next_digit(s, pos + 1))
            },
        }
    }
}

proof fn lemma_next_digit_bounds(s: Seq<u8>, pos: int)
    requires
        0 <= pos <= s.len(),
    ensures
        pos <= spec_next_digit(s, pos) <= s.len(),
    decreases s.len() - pos,
{
    if pos < s.len() && !crate::scan::spec_is_digit(s[pos]) {
        lemma_next_digit_bounds(s, pos + 1);
    }
}

proof fn lemma_obj_begin_end_bounds(s: Seq<u8>, pos: int)
    requires
        0 <= pos <= s.len(),
        spec_object_beginning(s, pos) is Some,
    ensures
        pos < crate::parse::spec_object_beginning_end(s, pos) <= s.len(),
{
    crate::scan::lemma_skip_ws_bounds(s, pos);
    let w = skip_spec(s, pos);
    crate::scan::lemma_digits_end_props(s, w);
    let ne = crate::scan::spec_digits_end(s, w);
    crate::scan::lemma_skip_ws_bounds(s, ne);
    let g = skip_spec(s, ne);
    crate::scan::lemma_digits_end_props(s, g);
    let ge = crate::scan::spec_digits_end(s, g);
    crate::scan::lemma_skip_ws_bounds(s, ge);
    let o = skip_spec(s, ge);
    crate::scan::lemma_skip_ws_bounds(s, o + 3);
}

#[via_fn]
proof fn spec_scan_objects_decreases(s: Seq<u8>, pos: int) {
    if 0 <= pos < s.len() {
        if spec_object_beginning(s, pos) is Some {
            lemma_obj_begin_end_bounds(s, pos);
        } else if !crate::scan::spec_is_digit(s[pos]) {
            lemma_next_digit_bounds(s, pos + 1);
        }
    }
}

/// Scans the whole input for every `N G obj` header the scan reaches and
/// returns each header's id with the position the scan stood at; the
/// result is exactly what the scan recursion names.
pub fn find_all_object_ids(input: &[u8]) -> (r: Vec<(crate::ObjectId, usize)>)
    ensures
        r@.len() == spec_scan_objects(input@, 0).len(),
        forall|i: int|
            0 <= i < r@.len() ==> (#[trigger] r@[i]).0 == spec_scan_objects(input@, 0)[i].0
                && r@[i].1 as int == spec_scan_objects(input@, 0)[i].1,
        forall|i: int|
            0 <= i < r@.len() ==> spec_object_beginning(input@, #[trigger] r@[i].1 as int)
                == Some(r@[i].0) && r@[i].1 <= input@.len(),
{
    let n = input.len();
    let mut out: Vec<(crate::ObjectId, usize)> = Vec::new();
    let ghost mut done: Seq<(crate::ObjectId, int)> = Seq::empty();
    let mut pos: usize = 0;
    while pos < n
        invariant
            0 <= pos <= n,
            n == input@.len(),
            done.len() == out@.len(),
            spec_scan_objects(input@, 0) == done + spec_scan_objects(input@, pos as int),
            forall|i: int|
                0 <= i < out@.len() ==> (#[trigger] out@[i]).0 == done[i].0 && out@[i].1 as int
                    == done[i].1,
            forall|i: int|
                0 <= i < out@.len() ==> spec_object_beginning(input@, #[trigger] out@[i].1 as int)
                    == Some(out@[i].0) && out@[i].1 <= input@.len(),
        decreases n - pos,
    {
        match object_beginning(input, pos) {
            Some((end, id)) => {
                out.push((id, pos));
                proof {
                    assert(crate::parse::spec_object_beginning_end(input@, pos as int) == end);
                    assert(done + (seq![(id, pos as int)] + spec_scan_objects(
                        input@,
                        end as int,
                    )) =~= done.push((id, pos as int)) + spec_scan_objects(input@, end as int));
                    done = done.push((id, pos as int));
                }
                pos = end;
            },
            None => {
                if 48 <= input[pos] && input[pos] <= 57 {
                    pos = pos + 1;
                } else {
                    let mut j = pos + 1;
                    while j < n && !(48 <= input[j] && input[j] <= 57)
                        invariant
                            pos < j <= n,
                            n == input@.len(),
                            spec_next_digit(input@, pos + 1) == spec_next_digit(
                                input@,
                                j as int,
                            ),
                        decreases n - j,
                    {
                        j = j + 1;
                    }
                    proof {
                        assert(spec_next_digit(input@, j as int) == j);
                    }
                    pos = j;
                }
            },
        }
    }
    proof {
        assert(spec_scan_objects(input@, pos as int) =~= Seq::<(crate::ObjectId, int)>::empty());
        assert(done + spec_scan_objects(input@, pos as int) =~= done);
    }
    out
}


/// The synthesised entries of the whole-file scan: one in-use entry per
/// header the scan reaches, keyed by the header's object number, at the
/// position the scan stood at.
pub open spec fn spec_scan_lines(s: Seq<u8>) -> Seq<(u32, XrefEntry)> {
    Seq::new(
        spec_scan_objects(s, 0).len(),
        |i: int|
            (
                spec_scan_objects(s, 0)[i].0.0,
                XrefEntry::InUse {
                    offset: spec_scan_objects(s, 0)[i].1 as usize,
                    generation: spec_scan_objects(s, 0)[i].0.1,
                },
            ),
    )
}

/// The table holds exactly the object numbers of `lines`, each with its
/// last line's entry.
pub open spec fn spec_table_matches_lines(x: Xref, lines: Seq<(u32, XrefEntry)>) -> bool {
    &&& forall|id: u32| #[trigger] x.spec_contains(id) <==> spec_lines_contain(lines, id)
    &&& forall|id: u32|
        #[trigger] x.spec_contains(id) ==> x.entries@[x.spec_key_idx(id)].1 == spec_lines_last(
            lines,
            id,
        )
}

/// The `startxref` keyword.
pub open spec fn spec_startxref_kw() -> Seq<u8> {
    seq![115u8, 116u8, 97u8, 114u8, 116u8, 120u8, 114u8, 101u8, 102u8]
}

/// Start of the final window in which the `startxref` and `trailer`
/// keywords are sought: the last 1024 bytes.
pub open spec fn spec_window_start(input: Seq<u8>) -> int {
    if input.len() >= 1024 {
        input.len() - 1024
    } else {
        0
    }
}

/// The final window's `startxref` scan settles on a keyword whose
/// number values `off`: the last keyword of the window, or the one
/// standing just before a keyword that no usable number follows.
pub open spec fn spec_startxref_names(input: Seq<u8>, off: int) -> bool {
    let w = input.subrange(spec_window_start(input), input.len() as int);
    exists|k: int|
        {
            &&& 0 <= k
            &&& #[trigger] spec_tag_at(w, k, spec_startxref_kw())
            &&& spec_sx_number_ok(w, k)
            &&& off == spec_sx_number(w, k)
            &&& spec_sx_settled(w, k)
        }
}

/// No `startxref` keyword stands in the final window, or the first one
/// is not followed by a digit run that fits a machine offset.
pub open spec fn spec_no_startxref_number(input: Seq<u8>) -> bool {
    let w = input.subrange(spec_window_start(input), input.len() as int);
    match crate::scan::spec_find_tag(w, 0, spec_startxref_kw()) {
        None => true,
        Some(k0) => !spec_sx_number_ok(w, k0),
    }
}

/// The primary strategy fails at the offset `off`: it lies outside the
/// file, or the table grammar, the trailer after it or the validation of
/// an entry against the header at its offset fails there.
pub open spec fn spec_primary_fails_at(input: Seq<u8>, off: int) -> bool {
    ||| off > input.len()
    ||| !spec_tag_at(input, skip_spec(input, off), spec_xref_kw())
    ||| !spec_xref_header(input, skip_spec(input, skip_spec(input, off) + 4))
    ||| spec_sections(input, skip_spec(input, skip_spec(input, off) + 4)) is None
    ||| (spec_sections(input, skip_spec(input, skip_spec(input, off) + 4)) matches Some(sr) && (
    !spec_trailer_ok(input, sr.0) || exists|id: u32|
        #[trigger] spec_lines_contain(sr.1, id) && match spec_lines_last(sr.1, id) {
            XrefEntry::Free => false,
            XrefEntry::InUse { offset, generation } => spec_object_beginning(
                input,
                offset as int,
            ) != Some((id, generation)),
            XrefEntry::Compressed { .. } => true,
        }))
}

/// When the primary strategy yields nothing: no usable `startxref`
/// number stands in the final window, or a named offset fails the
/// table, trailer or validation.
pub open spec fn spec_primary_err(input: Seq<u8>) -> bool {
    ||| spec_no_startxref_number(input)
    ||| exists|off: int| #[trigger] spec_startxref_names(input, off) && spec_primary_fails_at(
        input,
        off,
    )
}

/// What the primary strategy yields on success: a table read from the
/// table grammar at an offset named by a `startxref` keyword of the
/// final window, the trailer right after it, and every in-use entry
/// validated against the header at its offset.
pub open spec fn spec_primary_ok(input: Seq<u8>, x: Xref, t: Dictionary) -> bool {
    &&& x.wf()
    &&& spec_xref_accurate(input, x)
    &&& crate::object::spec_dict_sound(input, t)
    &&& exists|off: int|
        {
            &&& 0 <= off <= input.len()
            &&& #[trigger] spec_startxref_names(input, off)
            &&& spec_tag_at(input, skip_spec(input, off), spec_xref_kw())
            &&& spec_xref_header(input, skip_spec(input, skip_spec(input, off) + 4))
            &&& spec_sections(input, skip_spec(input, skip_spec(input, off) + 4)) matches Some(
                sr,
            ) && spec_table_matches_lines(x, sr.1) && spec_trailer_ok(input, sr.0)
                && spec_trailer_dict_at(input, skip_spec(input, sr.0), t)
        }
}

/// What the fallback strategy yields on success: the table synthesised
/// from the whole-file header scan, and the dictionary after the last
/// `trailer` keyword.
pub open spec fn spec_fallback_ok(input: Seq<u8>, x: Xref, t: Dictionary) -> bool {
    &&& x.wf()
    &&& spec_xref_accurate(input, x)
    &&& crate::object::spec_dict_sound(input, t)
    &&& spec_table_matches_lines(x, spec_scan_lines(input))
    &&& exists|lk: int|
        {
            &&& 0 <= lk
            &&& #[trigger] spec_tag_at(input, lk, spec_trailer_kw())
            &&& forall|j: int|
                0 <= j ==> !(#[trigger] spec_tag_at(input, lk + 7 + j, spec_trailer_kw()))
            &&& crate::parse::spec_dict_region_ok(input, skip_spec(input, lk + 7))
            &&& spec_trailer_dict_at(input, lk, t)
        }
}

/// When the fallback yields nothing: no `trailer` keyword in the final
/// window, or no closed dictionary after the last one.
pub open spec fn spec_fallback_err(input: Seq<u8>) -> bool {
    let wstart: int = if input.len() >= 1024 {
        input.len() - 1024
    } else {
        0
    };
    ||| forall|j: int|
        0 <= j ==> !(#[trigger] spec_tag_at(input, wstart + j, spec_trailer_kw()))
    ||| exists|lk: int|
        {
            &&& 0 <= lk
            &&& #[trigger] spec_tag_at(input, lk, spec_trailer_kw())
            &&& forall|j: int|
                0 <= j ==> !(#[trigger] spec_tag_at(input, lk + 7 + j, spec_trailer_kw()))
            &&& !crate::parse::spec_dict_region_ok(input, skip_spec(input, lk + 7))
        }
}

/// Builds the table by the primary strategy: locate the final `startxref`
/// in the last 1024 bytes, parse the table and trailer it names, and
/// validate every in-use entry against the header at its offset.
pub fn make_xref_table_from_end_of_file(input: &[u8]) -> (r: Result<
    (Xref, Dictionary),
    crate::error::PdfError,
>)
    ensures
        match r {
            Ok((x, t)) => spec_primary_ok(input@, x, t),
            Err(_) => spec_primary_err(input@),
        },
{
    let n = input.len();
    let wstart = if n >= 1024 {
        n - 1024
    } else {
        0
    };
    let window = vstd::slice::slice_subrange(input, wstart, n);
    proof {
        assert(wstart as int == spec_window_start(input@));
        assert(window@ == input@.subrange(spec_window_start(input@), input@.len() as int));
        assert(spec_startxref_kw() =~= seq![115u8, 116u8, 97u8, 114u8, 116u8, 120u8, 114u8,
            101u8, 102u8]);
    }
    let off = match final_xref_offset(window) {
        None => {
            proof {
                assert(spec_no_startxref_number(input@));
            }
            return Err(crate::error::PdfError::Parse(crate::error::ParseError::Malformed(wstart)));
        },
        Some(o) => o,
    };
    proof {
        assert(spec_startxref_names(input@, off as int));
    }
    if off > n {
        proof {
            assert(spec_primary_fails_at(input@, off as int));
        }
        return Err(crate::error::PdfError::Parse(crate::error::ParseError::Malformed(off)));
    }
    let (p, table) = match parse_xref_table(input, off) {
        None => {
            proof {
                assert(spec_primary_fails_at(input@, off as int));
            }
            return Err(crate::error::PdfError::Parse(crate::error::ParseError::Malformed(off)));
        },
        Some(x) => x,
    };
    let (_, trailer_dict) = match parse_trailer(input, p) {
        None => {
            proof {
                assert(spec_primary_fails_at(input@, off as int));
            }
            return Err(crate::error::PdfError::Parse(crate::error::ParseError::Malformed(p)));
        },
        Some(x) => x,
    };
    match assert_all_xref_entry_offsets_are_accurate(input, &table) {
        Ok(()) => {
            proof {
                let w = skip_spec(input@, off as int);
                assert(spec_tag_at(input@, w, spec_xref_kw()));
                assert(spec_primary_ok(input@, table, trailer_dict));
            }
            Ok((table, trailer_dict))
        },
        Err(e) => {
            proof {
                let p0 = skip_spec(input@, skip_spec(input@, off as int) + 4);
                let sr = spec_sections(input@, p0).unwrap();
                let i = choose|i: int|
                    {
                        &&& 0 <= i < table.entries@.len()
                        &&& match (#[trigger] table.entries@[i]).1 {
                            XrefEntry::Free => false,
                            XrefEntry::InUse { offset, generation } => match spec_object_beginning(
                                input@,
                                offset as int,
                            ) {
                                Some(found) => found != (table.entries@[i].0, generation) && e
                                    == XrefError::FoundWrongObjectForExpectedEntry(
                                    ((table.entries@[i].0, generation), found),
                                ),
                                None => e == XrefError::XrefTableInvalidEntry(
                                    (table.entries@[i].0, generation),
                                ),
                            },
                            XrefEntry::Compressed { .. } => e == XrefError::Unsupported,
                        }
                    };
                let id = table.entries@[i].0;
                assert(table.spec_contains(id));
                assert(spec_lines_contain(sr.1, id));
                let ki = table.spec_key_idx(id);
                assert(0 <= ki < table.entries@.len() && table.entries@[ki].0 == id);
                assert(ki == i) by {
                    if ki < i {
                        assert(table.entries@[ki].0 < table.entries@[i].0);
                    }
                    if i < ki {
                        assert(table.entries@[i].0 < table.entries@[ki].0);
                    }
                }
                assert(spec_lines_last(sr.1, id) == table.entries@[i].1);
                assert(spec_primary_fails_at(input@, off as int));
            }
            Err(crate::error::PdfError::Xref(e))
        },
    }
}

/// Builds the table by the fallback strategy: scan the whole file for
/// `N G obj` headers, synthesise an in-use entry for each, and take the
/// last `trailer` dictionary in the last 1024 bytes.
pub fn make_xref_table_manually(input: &[u8]) -> (r: Result<
    (Xref, Dictionary),
    crate::error::PdfError,
>)
    ensures
        match r {
            Ok((x, t)) => spec_fallback_ok(input@, x, t),
            Err(_) => spec_fallback_err(input@),
        },
{
    let found = find_all_object_ids(input);
    let mut table = Xref::new();
    let m = found.len();
    let mut k: usize = 0;
    while k < m
        invariant
            0 <= k <= m,
            m == found@.len(),
            table.wf(),
            m == spec_scan_lines(input@).len(),
            forall|i: int|
                0 <= i < found@.len() ==> (#[trigger] found@[i]).0 == spec_scan_objects(
                    input@,
                    0,
                )[i].0 && found@[i].1 as int == spec_scan_objects(input@, 0)[i].1,
            forall|i: int|
                0 <= i < found@.len() ==> spec_object_beginning(
                    input@,
                    #[trigger] found@[i].1 as int,
                ) == Some(found@[i].0) && found@[i].1 <= input@.len(),
            spec_xref_accurate(input@, table),
            forall|id: u32|
                #[trigger] table.spec_contains(id) <==> spec_lines_contain(
                    spec_scan_lines(input@).subrange(0, k as int),
                    id,
                ),
            forall|id: u32|
                #[trigger] table.spec_contains(id) ==> table.entries@[table.spec_key_idx(id)].1
                    == spec_lines_last(spec_scan_lines(input@).subrange(0, k as int), id),
        decreases m - k,
    {
        let ((num, gen), off) = found[k];
        let ghost prior = table;
        table.insert(num, XrefEntry::InUse { offset: off, generation: gen });
        proof {
            assert forall|i: int|
                0 <= i < table.entries@.len() implies match #[trigger] table.entries@[i].1 {
                XrefEntry::Free => true,
                XrefEntry::InUse { offset, generation } => spec_object_beginning(
                    input@,
                    offset as int,
                ) == Some((table.entries@[i].0, generation)),
                XrefEntry::Compressed { .. } => false,
            } by {
                if table.entries@[i] != (num, XrefEntry::InUse { offset: off, generation: gen }) {
                    assert(prior.entries@.contains(table.entries@[i]));
                    let j = choose|j: int|
                        0 <= j < prior.entries@.len() && prior.entries@[j] == table.entries@[i];
                    assert(prior.entries@[j] == table.entries@[i]);
                }
            }
            let lines = spec_scan_lines(input@);
            assert(lines[k as int] == (num, XrefEntry::InUse { offset: off, generation: gen }));
            lemma_lines_push(
                lines.subrange(0, k as int),
                num,
                XrefEntry::InUse { offset: off, generation: gen },
            );
            assert(lines.subrange(0, k + 1) =~= lines.subrange(0, k as int).push(
                (num, XrefEntry::InUse { offset: off, generation: gen }),
            ));
            assert forall|id: u32|
                #[trigger] table.spec_contains(id) implies table.entries@[table.spec_key_idx(
                id,
            )].1 == spec_lines_last(lines.subrange(0, k + 1), id) by {
                if id != num {
                    assert(prior.spec_contains(id));
                }
            }
        }
        k = k + 1;
    }
    proof {
        assert(spec_scan_lines(input@).subrange(0, m as int) =~= spec_scan_lines(input@));
    }
    // the last `trailer` in the final 1024 bytes carries the dictionary
    let n = input.len();
    let wstart = if n >= 1024 {
        n - 1024
    } else {
        0
    };
    let kw = vec![116u8, 114u8, 97u8, 105u8, 108u8, 101u8, 114u8];
    proof {
        assert(kw@ =~= seq![116u8, 114u8, 97u8, 105u8, 108u8, 101u8, 114u8]);
    }
    let mut cur: usize = wstart;
    let mut last: Option<usize> = None;
    loop
        invariant
            wstart <= cur <= n,
            n == input@.len(),
            wstart == if input@.len() >= 1024 {
                input@.len() - 1024
            } else {
                0int
            },
            kw@ == spec_trailer_kw(),
            match last {
                Some(l) => 7 <= l <= n && cur == l && spec_tag_at(
                    input@,
                    l - 7,
                    spec_trailer_kw(),
                ),
                None => cur == wstart,
            },
        ensures
            match last {
                Some(l) => 7 <= l <= n && spec_tag_at(input@, l - 7, spec_trailer_kw())
                    && forall|j: int|
                    0 <= j ==> !(#[trigger] spec_tag_at(input@, l + j, spec_trailer_kw())),
                None => forall|j: int|
                    0 <= j ==> !(#[trigger] spec_tag_at(
                        input@,
                        wstart + j,
                        spec_trailer_kw(),
                    )),
            },
        decreases n - cur,
    {
        let tail = vstd::slice::slice_subrange(input, cur, n);
        let mut needles: Vec<&[u8]> = Vec::new();
        needles.push(kw.as_slice());
        proof {
            assert(needles@[0]@ == kw@);
        }
        let ghost nsview = needles@;
        match find_subsequence(tail, needles) {
            None => {
                proof {
                    assert forall|j: int| 0 <= j implies !(#[trigger] spec_tag_at(
                        input@,
                        cur + j,
                        spec_trailer_kw(),
                    )) by {
                        crate::scan::lemma_tag_in_window(
                            input@,
                            cur as int,
                            tail@,
                            spec_trailer_kw(),
                            j,
                        );
                        if spec_tag_at(tail@, j, spec_trailer_kw()) {
                            assert(spec_matches_any(tail@, nsview, j));
                        }
                    }
                }
                break ;
            },
            Some(p) => {
                proof {
                    assert(spec_matches_any(tail@, nsview, p as int));
                    let q = choose|q: int|
                        0 <= q < nsview.len() && spec_tag_at(tail@, p as int, nsview[q]@);
                    assert(q == 0);
                    assert(spec_tag_at(tail@, p as int, kw@));
                    crate::scan::lemma_tag_in_window(
                        input@,
                        cur as int,
                        tail@,
                        spec_trailer_kw(),
                        p as int,
                    );
                    assert(spec_tag_at(input@, cur + p, spec_trailer_kw()));
                    assert(cur + p + 7 <= n);
                }
                last = Some(cur + p + 7);
                cur = cur + p + 7;
            },
        }
    }
    let tpos = match last {
        None => {
            return Err(crate::error::PdfError::Parse(crate::error::ParseError::Malformed(wstart)));
        },
        Some(l) => l,
    };
    let p = skip_ws(input, tpos);
    proof {
        assert(p == skip_spec(input@, tpos - 7 + 7));
    }
    match parse_dict_or_stream(input, p) {
        None => {
            proof {
                assert(spec_tag_at(input@, tpos - 7, spec_trailer_kw()));
                assert(!crate::parse::spec_dict_region_ok(
                    input@,
                    skip_spec(input@, tpos - 7 + 7),
                ));
            }
            Err(crate::error::PdfError::Parse(crate::error::ParseError::Malformed(tpos)))
        },
        Some((_, o)) => {
            let ghost go = o;
            proof {
                assert(spec_tag_at(input@, tpos - 7, spec_trailer_kw()));
                assert(crate::parse::spec_dict_region_ok(
                    input@,
                    skip_spec(input@, tpos - 7 + 7),
                ));
            }
            match o {
                crate::object::Object::Dictionary(d) => {
                    proof {
                        assert(crate::object::spec_object_sound(input@, go));
                        assert(crate::object::spec_dict_sound(input@, d));
                    }
                    Ok((table, d))
                },
                crate::object::Object::Stream(st) => {
                    proof {
                        assert(crate::object::spec_object_sound(input@, go));
                        assert(crate::object::spec_dict_sound(input@, st.dict));
                    }
                    Ok((table, st.dict))
                },
                _ => {
                    proof {
                        assert(false);
                    }
                    Err(crate::error::PdfError::Parse(crate::error::ParseError::Malformed(tpos)))
                },
            }
        },
    }
}

/// Builds the cross-reference table and trailer: the primary strategy
/// first, the whole-file scan when it fails. Success always means every
/// in-use entry points at the header of exactly the object it names.
pub fn make_xref_table(input: &[u8]) -> (r: Result<(Xref, Dictionary), crate::error::PdfError>)
    ensures
        match r {
            Ok((x, t)) => spec_primary_ok(input@, x, t) || (spec_primary_err(input@)
                && spec_fallback_ok(input@, x, t)),
            Err(_) => spec_primary_err(input@) && spec_fallback_err(input@),
        },
{
    match make_xref_table_from_end_of_file(input) {
        Ok(x) => Ok(x),
        Err(_) => make_xref_table_manually(input),
    }
}

/// Checks that every in-use entry's offset holds the header of the object
/// the entry names. Success states exactly that, for every entry; a
/// failure names the first offending entry: a header that names another
/// object, a missing header, or the unimplemented compressed kind.
pub fn assert_all_xref_entry_offsets_are_accurate(input: &[u8], xref: &Xref) -> (r: Result<
    (),
    XrefError,
>)
    ensures
        match r {
            Ok(()) => spec_xref_accurate(input@, *xref),
            Err(e) => !spec_xref_accurate(input@, *xref) && exists|i: int|
                {
                    &&& 0 <= i < xref.entries@.len()
                    &&& match (#[trigger] xref.entries@[i]).1 {
                        XrefEntry::Free => false,
                        XrefEntry::InUse { offset, generation } => match spec_object_beginning(
                            input@,
                            offset as int,
                        ) {
                            Some(found) => found != (xref.entries@[i].0, generation) && e
                                == XrefError::FoundWrongObjectForExpectedEntry(
                                ((xref.entries@[i].0, generation), found),
                            ),
                            None => e == XrefError::XrefTableInvalidEntry(
                                (xref.entries@[i].0, generation),
                            ),
                        },
                        XrefEntry::Compressed { .. } => e == XrefError::Unsupported,
                    }
                },
        },
{
    let n = xref.entries.len();
    let mut i: usize = 0;
    while i < n
        invariant
            0 <= i <= n,
            n == xref.entries@.len(),
            forall|m: int|
                0 <= m < i ==> match #[trigger] xref.entries@[m].1 {
                    XrefEntry::Free => true,
                    XrefEntry::InUse { offset, generation } => spec_object_beginning(
                        input@,
                        offset as int,
                    ) == Some((xref.entries@[m].0, generation)),
                    XrefEntry::Compressed { .. } => false,
                },
        decreases n - i,
    {
        let (id, entry) = xref.entries[i];
        proof {
            assert(xref.entries@[i as int] == (id, entry));
        }
        match entry {
            XrefEntry::Free => {},
            XrefEntry::Compressed { .. } => {
                proof {
                    assert(xref.entries@[i as int].1 is Compressed);
                }
                return Err(XrefError::Unsupported);
            },
            XrefEntry::InUse { offset, generation } => {
                if offset > input.len() {
                    proof {
                        assert(crate::scan::spec_skip_ws(input@, offset as int) == offset);
                        assert(spec_object_beginning(input@, offset as int) is None);
                    }
                    return Err(XrefError::XrefTableInvalidEntry((id, generation)));
                }
                match object_beginning(input, offset) {
                    None => {
                        return Err(XrefError::XrefTableInvalidEntry((id, generation)));
                    },
                    Some((_, found)) => {
                        if !(found.0 == id && found.1 == generation) {
                            return Err(
                                XrefError::FoundWrongObjectForExpectedEntry(
                                    ((id, generation), found),
                                ),
                            );
                        }
                    },
                }
            },
        }
        i = i + 1;
    }
    Ok(())
}

} // verus!
