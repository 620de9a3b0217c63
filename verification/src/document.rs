//! The document: its version, cross-reference table, trailer and the
//! object tree loaded from the table's entries, with navigation from the
//! trailer to the catalog and the page list.

use vstd::prelude::*;

use crate::error::{ParseError, PdfError, XrefError};
use crate::numbers::Fixed;
use crate::object::{
    spec_dict_sound, spec_object_content_from, spec_object_sound, spec_object_wf,
    lemma_sound_gives_content, lemma_sound_gives_wf, Dictionary, HandlingError, Object,
};
use crate::parse::{parse_indirect_object, spec_object_beginning};
use crate::scan::{find_subsequence, skip_ws, spec_matches_any, spec_tag_at};
use crate::xref::{spec_xref_accurate, Xref, XrefEntry};
use crate::ObjectId;

verus! {

/// A loaded document.
#[derive(Debug, PartialEq)]
pub struct Document {
    /// The version the header names, in micro-units: 1.3 is 1_300_000.
    pub version: Fixed,
    /// The cross-reference table.
    pub xref: Xref,
    /// The trailer dictionary.
    pub trailer: Dictionary,
    /// The loaded objects, object-number ascending.
    pub objects: Vec<(ObjectId, Object)>,
}

/// The value of an in-use entry's object parses from the end of the
/// header at `off`; a dictionary's or stream's entries are the ones its
/// region's pair chain yields.
pub open spec fn spec_entry_value_ok(input: Seq<u8>, off: int, o: Object) -> bool {
    let mid = crate::parse::spec_object_beginning_end(input, off);
    &&& (exists|e: int| #[trigger] crate::parse::spec_body_result(input, mid, e, o))
    &&& (o matches Object::Dictionary(d) ==> crate::parse::spec_dict_at(input, mid, d))
    &&& (o matches Object::Stream(st) ==> crate::parse::spec_dict_at(input, mid, st.dict))
}

/// Every loaded object corresponds to an in-use table entry: it is keyed
/// by that entry's object number and generation, the entry's offset
/// holds its header, and its value parses from the header's end.
pub open spec fn spec_objects_from_xref(
    input: Seq<u8>,
    xref: Xref,
    objects: Seq<(ObjectId, Object)>,
) -> bool {
    forall|j: int|
        #![trigger objects[j]]
        0 <= j < objects.len() ==> exists|i: int|
            {
                &&& 0 <= i < xref.entries@.len()
                &&& (#[trigger] xref.entries@[i]).1 is InUse
                &&& objects[j].0 == (xref.entries@[i].0, xref.entries@[i].1->InUse_generation)
                &&& spec_object_beginning(input, xref.entries@[i].1->InUse_offset as int)
                    == Some(objects[j].0)
                &&& spec_entry_value_ok(
                    input,
                    xref.entries@[i].1->InUse_offset as int,
                    objects[j].1,
                )
            }
}

/// Every in-use table entry contributed an object under its own id,
/// except where no alternative of the body grammar stands after the
/// header at its offset.
pub open spec fn spec_objects_complete(
    input: Seq<u8>,
    xref: Xref,
    objects: Seq<(ObjectId, Object)>,
) -> bool {
    forall|i: int|
        #![trigger xref.entries@[i]]
        0 <= i < xref.entries@.len() && xref.entries@[i].1 is InUse ==> ({
            let off = xref.entries@[i].1->InUse_offset as int;
            ||| exists|j: int|
                0 <= j < objects.len() && (#[trigger] objects[j]).0 == (
                xref.entries@[i].0,
                xref.entries@[i].1->InUse_generation,
                )
            ||| crate::parse::spec_body_fails(
                input,
                crate::parse::spec_object_beginning_end(input, off),
            )
        })
}

/// The trailer key that names the catalog.
pub open spec fn spec_root_key() -> Seq<u8> {
    seq![82u8, 111u8, 111u8, 116u8]
}

/// The catalog key that names the pages node.
pub open spec fn spec_pages_key() -> Seq<u8> {
    seq![80u8, 97u8, 103u8, 101u8, 115u8]
}

/// The pages key that names the page list.
pub open spec fn spec_kids_key() -> Seq<u8> {
    seq![75u8, 105u8, 100u8, 115u8]
}

impl Document {
    /// Object numbers of loaded objects strictly ascend, the trailer and
    /// every loaded object have well-formed dictionaries.
    pub open spec fn wf(self) -> bool {
        &&& self.trailer.wf()
        &&& forall|i: int, j: int|
            0 <= i < j < self.objects@.len() ==> self.objects@[i].0.0 < self.objects@[j].0.0
        &&& forall|i: int|
            0 <= i < self.objects@.len() ==> spec_object_wf(#[trigger] self.objects@[i].1)
    }

    pub open spec fn spec_contains_obj(self, id: ObjectId) -> bool {
        exists|i: int| 0 <= i < self.objects@.len() && self.objects@[i].0 == id
    }

    pub open spec fn spec_obj_idx(self, id: ObjectId) -> int {
        choose|i: int| 0 <= i < self.objects@.len() && self.objects@[i].0 == id
    }

    /// The object loaded under `id`.
    pub open spec fn spec_lookup(self, id: ObjectId) -> Object {
        self.objects@[self.spec_obj_idx(id)].1
    }

    /// The catalog the trailer names, when every link holds: `Root` is
    /// present, a reference, loaded, and a dictionary.
    pub open spec fn spec_catalog(self) -> Option<Dictionary> {
        let rootkey = spec_root_key();
        if !self.trailer.spec_contains_key(rootkey) {
            None
        } else {
            match self.trailer.entries@[self.trailer.spec_key_idx(rootkey)].1 {
                Object::Reference(rid) => if self.spec_contains_obj(rid) {
                    match self.spec_lookup(rid) {
                        Object::Dictionary(d) => Some(d),
                        _ => None,
                    }
                } else {
                    None
                },
                _ => None,
            }
        }
    }

    /// Which error a failed catalog lookup carries: a missing link is
    /// `ObjectNotFound`, a mistyped one `ObjectCast`.
    pub open spec fn spec_catalog_err(self) -> HandlingError {
        let rootkey = spec_root_key();
        if !self.trailer.spec_contains_key(rootkey) {
            HandlingError::ObjectNotFound
        } else {
            match self.trailer.entries@[self.trailer.spec_key_idx(rootkey)].1 {
                Object::Reference(rid) => if !self.spec_contains_obj(rid) {
                    HandlingError::ObjectNotFound
                } else {
                    HandlingError::ObjectCast
                },
                _ => HandlingError::ObjectCast,
            }
        }
    }

    /// The page ids the catalog names, when every link holds: the
    /// catalog's `Pages` is a reference to a loaded dictionary whose
    /// `Kids` entry is an array of references.
    pub open spec fn spec_page_ids(self) -> Option<Seq<ObjectId>> {
        let pageskey = spec_pages_key();
        let kidskey = spec_kids_key();
        match self.spec_catalog() {
            None => None,
            Some(cat) => if !cat.spec_contains_key(pageskey) {
                None
            } else {
                match cat.entries@[cat.spec_key_idx(pageskey)].1 {
                    Object::Reference(pid) => if !self.spec_contains_obj(pid) {
                        None
                    } else {
                        match self.spec_lookup(pid) {
                            Object::Dictionary(pages) => if !pages.spec_contains_key(kidskey) {
                                None
                            } else {
                                match pages.entries@[pages.spec_key_idx(kidskey)].1 {
                                    Object::Array(items) => if exists|i: int|
                                        0 <= i < items@.len() && !((#[trigger] items@[i])
                                            is Reference) {
                                        None
                                    } else {
                                        Some(
                                            Seq::new(
                                                items@.len(),
                                                |i: int| items@[i]->Reference_0,
                                            ),
                                        )
                                    },
                                    _ => None,
                                }
                            },
                            _ => None,
                        }
                    },
                    _ => None,
                }
            },
        }
    }

    /// Which error a failed page lookup carries, by the first failing
    /// link of the chain.
    pub open spec fn spec_page_ids_err(self) -> HandlingError {
        let pageskey = spec_pages_key();
        let kidskey = spec_kids_key();
        match self.spec_catalog() {
            None => self.spec_catalog_err(),
            Some(cat) => if !cat.spec_contains_key(pageskey) {
                HandlingError::ObjectNotFound
            } else {
                match cat.entries@[cat.spec_key_idx(pageskey)].1 {
                    Object::Reference(pid) => if !self.spec_contains_obj(pid) {
                        HandlingError::ObjectNotFound
                    } else {
                        match self.spec_lookup(pid) {
                            Object::Dictionary(pages) => if !pages.spec_contains_key(kidskey) {
                                HandlingError::ObjectNotFound
                            } else {
                                HandlingError::ObjectCast
                            },
                            _ => HandlingError::ObjectCast,
                        }
                    },
                    _ => HandlingError::ObjectCast,
                }
            },
        }
    }

    /// An empty document of the default version.
    pub fn new() -> (r: Document)
        ensures
            r.wf(),
            r.version.micros == 1700000,
            r.objects@.len() == 0,
            r.trailer.entries@.len() == 0,
    {
        Document {
            version: Fixed::from_micros(1700000),
            xref: Xref::new(),
            trailer: Dictionary::new(),
            objects: Vec::new(),
        }
    }

    /// All ids of loaded objects, ascending.
    pub fn get_object_ids(&self) -> (r: Vec<ObjectId>)
        ensures
            r@.len() == self.objects@.len(),
            forall|i: int| 0 <= i < r@.len() ==> r@[i] == self.objects@[i].0,
    {
        let n = self.objects.len();
        let mut out: Vec<ObjectId> = Vec::new();
        let mut i: usize = 0;
        while i < n
            invariant
                0 <= i <= n,
                n == self.objects@.len(),
                out@.len() == i,
                forall|m: int| 0 <= m < i ==> out@[m] == self.objects@[m].0,
            decreases n - i,
        {
            out.push(self.objects[i].0);
            i = i + 1;
        }
        out
    }

    /// The object loaded under `id`; `ObjectNotFound` when there is none.
    pub fn get_object(&self, object_id: ObjectId) -> (r: Result<&Object, HandlingError>)
        requires
            self.wf(),
        ensures
            match r {
                Ok(o) => self.spec_contains_obj(object_id) && *o == self.spec_lookup(object_id),
                Err(e) => !self.spec_contains_obj(object_id) && e
                    == HandlingError::ObjectNotFound,
            },
    {
        let n = self.objects.len();
        let mut i: usize = 0;
        while i < n
            invariant
                0 <= i <= n,
                n == self.objects@.len(),
                self.wf(),
                forall|m: int| 0 <= m < i ==> self.objects@[m].0 != object_id,
            decreases n - i,
        {
            let (id, _) = &self.objects[i];
            if id.0 == object_id.0 && id.1 == object_id.1 {
                proof {
                    assert(self.objects@[i as int].0 == object_id);
                    assert(self.spec_contains_obj(object_id));
                    let j = self.spec_obj_idx(object_id);
                    if j != i as int {
                        assert(self.objects@[j].0 == object_id);
                        assert(false);
                    }
                }
                return Ok(&self.objects[i].1);
            }
            proof {
                assert(self.objects@[i as int].0 != object_id);
            }
            i = i + 1;
        }
        Err(HandlingError::ObjectNotFound)
    }

    /// The catalog: the dictionary that `trailer.Root` resolves to.
    /// Succeeds exactly when the chain holds; a missing link is
    /// `ObjectNotFound`, a mistyped one `ObjectCast`.
    pub fn get_catalog(&self) -> (r: Result<&Dictionary, HandlingError>)
        requires
            self.wf(),
        ensures
            r is Ok <==> self.spec_catalog() is Some,
            match r {
                Ok(c) => self.spec_catalog() == Some(*c) && c.wf(),
                Err(e) => e == self.spec_catalog_err(),
            },
    {
        let rootkey = vec![82u8, 111u8, 111u8, 116u8];
        proof {
            assert(rootkey@ =~= spec_root_key());
        }
        let root = match self.trailer.get(rootkey.as_slice()) {
            Err(e) => {
                return Err(e);
            },
            Ok(o) => o,
        };
        let root_id = match root.as_reference() {
            Err(e) => {
                return Err(e);
            },
            Ok(id) => id,
        };
        let obj = match self.get_object(root_id) {
            Err(e) => {
                return Err(e);
            },
            Ok(o) => o,
        };
        match obj.as_dict() {
            Err(e) => Err(e),
            Ok(d) => {
                proof {
                    let j = self.spec_obj_idx(root_id);
                    assert(spec_object_wf(self.objects@[j].1));
                }
                Ok(d)
            },
        }
    }

    /// Ids of the pages: the `Kids` references of the catalog's `Pages`
    /// node. Succeeds exactly when the whole chain from `trailer.Root`
    /// holds; the error names the first failing link.
    pub fn get_page_ids(&self) -> (r: Result<Vec<ObjectId>, HandlingError>)
        requires
            self.wf(),
        ensures
            r is Ok <==> self.spec_page_ids() is Some,
            match r {
                Ok(ids) => Some(ids@) == self.spec_page_ids(),
                Err(e) => e == self.spec_page_ids_err(),
            },
    {
        let catalog = match self.get_catalog() {
            Err(e) => {
                return Err(e);
            },
            Ok(c) => c,
        };
        let pageskey = vec![80u8, 97u8, 103u8, 101u8, 115u8];
        proof {
            assert(pageskey@ =~= spec_pages_key());
        }
        let pages_ref = match catalog.get(pageskey.as_slice()) {
            Err(e) => {
                return Err(e);
            },
            Ok(o) => o,
        };
        let pages_loc = match pages_ref.as_reference() {
            Err(e) => {
                return Err(e);
            },
            Ok(id) => id,
        };
        let pages_obj = match self.get_object(pages_loc) {
            Err(e) => {
                return Err(e);
            },
            Ok(o) => o,
        };
        let pages = match pages_obj.as_dict() {
            Err(e) => {
                return Err(e);
            },
            Ok(d) => d,
        };
        proof {
            let j = self.spec_obj_idx(pages_loc);
            assert(spec_object_wf(self.objects@[j].1));
        }
        let kidskey = vec![75u8, 105u8, 100u8, 115u8];
        proof {
            assert(kidskey@ =~= spec_kids_key());
        }
        let kids_obj = match pages.get(kidskey.as_slice()) {
            Err(e) => {
                return Err(e);
            },
            Ok(o) => o,
        };
        let kids = match kids_obj.as_array() {
            Err(e) => {
                return Err(e);
            },
            Ok(a) => a,
        };
        let n = kids.len();
        let mut ids: Vec<ObjectId> = Vec::new();
        let mut i: usize = 0;
        while i < n
            invariant
                0 <= i <= n,
                n == kids@.len(),
                ids@.len() == i,
                self.wf(),
                self.spec_catalog() == Some(*catalog),
                catalog.spec_contains_key(spec_pages_key()),
                catalog.entries@[catalog.spec_key_idx(spec_pages_key())].1 == Object::Reference(
                    pages_loc,
                ),
                self.spec_contains_obj(pages_loc),
                self.spec_lookup(pages_loc) == Object::Dictionary(*pages),
                pages.spec_contains_key(spec_kids_key()),
                pages.entries@[pages.spec_key_idx(spec_kids_key())].1 == Object::Array(*kids),
                forall|m: int| 0 <= m < i ==> kids@[m] == Object::Reference(ids@[m]),
            decreases n - i,
        {
            match kids[i].as_reference() {
                Err(e) => {
                    proof {
                        assert(!(kids@[i as int] is Reference));
                        assert(exists|m: int|
                            0 <= m < kids@.len() && !((#[trigger] kids@[m]) is Reference));
                        assert(self.spec_page_ids() is None);
                    }
                    return Err(e);
                },
                Ok(id) => {
                    ids.push(id);
                },
            }
            i = i + 1;
        }
        proof {
            assert forall|m: int| 0 <= m < kids@.len() implies (#[trigger] kids@[m])
                is Reference by {
                assert(kids@[m] == Object::Reference(ids@[m]));
            }
            assert(!(exists|m: int|
                0 <= m < kids@.len() && !((#[trigger] kids@[m]) is Reference)));
            assert(ids@ =~= Seq::new(kids@.len(), |m: int| kids@[m]->Reference_0));
        }
        Ok(ids)
    }
}

/// Parses the header version: `%PDF-` within the first 50 bytes, then the
/// number after it, in micro-units.
/// No usable header stands in the first 50 bytes: either `%PDF-` never
/// occurs there, or no number in range follows its first occurrence.
pub open spec fn spec_version_absent(input: Seq<u8>) -> bool {
    let wend: int = if input.len() >= 50 {
        50
    } else {
        input.len() as int
    };
    match crate::scan::spec_find_tag(
        input.subrange(0, wend),
        0,
        seq![37u8, 80u8, 68u8, 70u8, 45u8],
    ) {
        None => true,
        Some(k0) => ({
            let p = k0 + 5;
            &&& (crate::numbers::spec_real_form(input, p)
                ==> crate::numbers::spec_real_mag_micros(input, p) > crate::numbers::REAL_LIMIT)
            &&& (!crate::numbers::spec_real_form(input, p) ==> ({
                let de = crate::scan::spec_digits_end(input, p);
                de == p || crate::scan::spec_digits_val(input, p, de) > 9223372036854
            }))
        }),
    }
}

pub fn parse_version(input: &[u8]) -> (r: Option<Fixed>)
    ensures
        r is None ==> spec_version_absent(input@),
        match r {
            Some(ver) => exists|k: int|
                {
                    &&& 0 <= k
                    &&& k + 5 <= input@.len()
                    &&& #[trigger] input@.subrange(k, k + 5) == seq![37u8, 80u8, 68u8, 70u8,
                        45u8]
                    &&& k + 5 <= 50
                    &&& ({
                        let p = k + 5;
                        if crate::numbers::spec_real_form(input@, p)
                            && crate::numbers::spec_real_mag_micros(input@, p)
                            <= crate::numbers::REAL_LIMIT {
                            ver.micros == crate::numbers::spec_real_mag_micros(input@, p)
                        } else {
                            ver.micros == crate::scan::spec_digits_val(
                                input@,
                                p,
                                crate::scan::spec_digits_end(input@, p),
                            ) * 1000000
                        }
                    })
                },
            None => true,
        },
{
    let n = input.len();
    let wend = if n >= 50 {
        50
    } else {
        n
    };
    let window = vstd::slice::slice_subrange(input, 0, wend);
    let kw = vec![37u8, 80u8, 68u8, 70u8, 45u8];
    proof {
        assert(kw@ =~= seq![37u8, 80u8, 68u8, 70u8, 45u8]);
    }
    let mut needles: Vec<&[u8]> = Vec::new();
    needles.push(kw.as_slice());
    proof {
        assert(needles@[0]@ == kw@);
    }
    let ghost nsview = needles@;
    let k = match find_subsequence(window, needles) {
        None => {
            proof {
                assert forall|j: int| 0 <= j implies !(#[trigger] spec_tag_at(
                    window@,
                    0 + j,
                    kw@,
                )) by {
                    if spec_tag_at(window@, j, kw@) {
                        assert(spec_matches_any(window@, nsview, j));
                    }
                }
                crate::scan::lemma_find_tag_none(window@, 0, kw@);
            }
            return None;
        },
        Some(k) => k,
    };
    proof {
        assert(spec_matches_any(window@, nsview, k as int));
        let m = choose|m: int|
            0 <= m < nsview.len() && spec_tag_at(window@, k as int, nsview[m]@);
        assert(m == 0);
        assert(spec_tag_at(window@, k as int, kw@));
        assert forall|j: int| 0 <= j < k implies !(#[trigger] spec_tag_at(
            window@,
            0 + j,
            kw@,
        )) by {
            if spec_tag_at(window@, j, kw@) {
                assert(spec_matches_any(window@, nsview, j));
            }
        }
        crate::scan::lemma_find_tag_some(window@, 0, kw@, k as int);
        assert(k + 5 <= wend);
        assert(spec_tag_at(input@, k as int, kw@)) by {
            assert(window@.subrange(k as int, k + 5) =~= input@.subrange(k as int, k + 5));
        }
    }
    let p = k + 5;
    proof {
        assert(kw@ == seq![37u8, 80u8, 68u8, 70u8, 45u8]);
    }
    match crate::numbers::parse_unsigned_real(input, p, crate::numbers::REAL_LIMIT) {
        Some((_, v)) => {
            proof {
                assert(input@.subrange(k as int, k as int + 5) == seq![37u8, 80u8, 68u8, 70u8,
                    45u8]);
            }
            Some(Fixed::from_micros(v))
        },
        None => match crate::numbers::parse_u64(input, p) {
            Some((_, v)) => {
                if v <= 9223372036854u64 {
                    proof {
                        assert(input@.subrange(k as int, k as int + 5) == seq![37u8, 80u8, 68u8,
                            70u8, 45u8]);
                    }
                    Some(Fixed::from_int(v as i64))
                } else {
                    None
                }
            },
            None => None,
        },
    }
}

/// Loads every in-use entry's object, in ascending object-number order.
/// Entries whose object fails to parse are skipped; the table must have
/// been validated, so each loaded object is keyed by the id its header
/// names.
pub fn all_objects(input: &[u8], xref: &Xref) -> (r: Result<
    Vec<(ObjectId, Object)>,
    PdfError,
>)
    requires
        xref.wf(),
        spec_xref_accurate(input@, *xref),
    ensures
        match r {
            Ok(objects) => {
                &&& forall|i: int, j: int|
                    0 <= i < j < objects@.len() ==> objects@[i].0.0 < objects@[j].0.0
                &&& forall|i: int|
                    0 <= i < objects@.len() ==> spec_object_sound(
                        input@,
                        #[trigger] objects@[i].1,
                    )
                &&& spec_objects_from_xref(input@, *xref, objects@)
                &&& spec_objects_complete(input@, *xref, objects@)
            },
            Err(_) => false,
        },
{
    let n = xref.len();
    let mut objects: Vec<(ObjectId, Object)> = Vec::new();
    let mut k: usize = 0;
    while k < n
        invariant
            0 <= k <= n,
            n == xref.entries@.len(),
            xref.wf(),
            spec_xref_accurate(input@, *xref),
            forall|i: int, j: int|
                0 <= i < j < objects@.len() ==> objects@[i].0.0 < objects@[j].0.0,
            forall|i: int|
                0 <= i < objects@.len() ==> spec_object_sound(input@, #[trigger] objects@[i].1),
            forall|i: int, j: int|
                0 <= i < objects@.len() && k <= j < n ==> (#[trigger] objects@[i]).0.0 < (
                #[trigger] xref.entries@[j]).0,
            spec_objects_from_xref(input@, *xref, objects@),
            forall|i: int|
                #![trigger xref.entries@[i]]
                0 <= i < k && xref.entries@[i].1 is InUse ==> ({
                    let off = xref.entries@[i].1->InUse_offset as int;
                    ||| exists|j: int|
                        0 <= j < objects@.len() && (#[trigger] objects@[j]).0 == (
                        xref.entries@[i].0,
                        xref.entries@[i].1->InUse_generation,
                        )
                    ||| crate::parse::spec_body_fails(
                        input@,
                        crate::parse::spec_object_beginning_end(input@, off),
                    )
                }),
        decreases n - k,
    {
        let (key, entry) = xref.entry_at(k);
        match entry {
            XrefEntry::Free => {},
            XrefEntry::Compressed { .. } => {
                proof {
                    assert(xref.entries@[k as int].1 is Compressed);
                    assert(false);
                }
            },
            XrefEntry::InUse { offset, generation } => {
                proof {
                    assert(spec_object_beginning(input@, offset as int) == Some((
                        key,
                        generation,
                    )));
                }
                if offset <= input.len() {
                    match parse_indirect_object(input, offset) {
                        None => {
                            proof {
                                assert(crate::parse::spec_body_fails(
                                    input@,
                                    crate::parse::spec_object_beginning_end(
                                        input@,
                                        offset as int,
                                    ),
                                ));
                            }
                        },
                        Some((oend, id, o)) => {
                            proof {
                                assert(Some(id) == spec_object_beginning(
                                    input@,
                                    offset as int,
                                ));
                                assert(id == (key, generation));
                            }
                            let ghost ov = o;
                            let ghost prior_objs = objects@;
                            objects.push((id, o));
                            proof {
                                let mid = crate::parse::spec_object_beginning_end(
                                    input@,
                                    offset as int,
                                );
                                assert(crate::parse::spec_body_result(
                                    input@,
                                    mid,
                                    oend as int,
                                    ov,
                                ));
                                assert(spec_entry_value_ok(input@, offset as int, ov));
                                assert forall|j: int|
                                    #![trigger objects@[j]]
                                    0 <= j < objects@.len() implies exists|i: int|
                                    {
                                        &&& 0 <= i < xref.entries@.len()
                                        &&& (#[trigger] xref.entries@[i]).1 is InUse
                                        &&& objects@[j].0 == (xref.entries@[i].0,
                                        xref.entries@[i].1->InUse_generation)
                                        &&& spec_object_beginning(
                                            input@,
                                            xref.entries@[i].1->InUse_offset as int,
                                        ) == Some(objects@[j].0)
                                        &&& spec_entry_value_ok(
                                            input@,
                                            xref.entries@[i].1->InUse_offset as int,
                                            objects@[j].1,
                                        )
                                    } by {
                                    assert(spec_objects_from_xref(
                                        input@,
                                        *xref,
                                        prior_objs,
                                    ));
                                    if j < prior_objs.len() {
                                        assert(objects@[j] == prior_objs[j]);
                                        let i0 = choose|i: int|
                                            {
                                                &&& 0 <= i < xref.entries@.len()
                                                &&& (#[trigger] xref.entries@[i]).1 is InUse
                                                &&& prior_objs[j].0 == (xref.entries@[i].0,
                                                xref.entries@[i].1->InUse_generation)
                                                &&& spec_object_beginning(
                                                    input@,
                                                    xref.entries@[i].1->InUse_offset as int,
                                                ) == Some(prior_objs[j].0)
                                                &&& spec_entry_value_ok(
                                                    input@,
                                                    xref.entries@[i].1->InUse_offset as int,
                                                    prior_objs[j].1,
                                                )
                                            };
                                        assert(0 <= i0 < xref.entries@.len());
                                        assert(xref.entries@[i0].1 is InUse);
                                        assert(objects@[j].0 == (xref.entries@[i0].0,
                                        xref.entries@[i0].1->InUse_generation));
                                        assert(spec_entry_value_ok(
                                            input@,
                                            xref.entries@[i0].1->InUse_offset as int,
                                            objects@[j].1,
                                        ));
                                    } else {
                                        assert(xref.entries@[k as int].1 is InUse);
                                        assert(xref.entries@[k as int].1->InUse_offset
                                            == offset);
                                        assert(xref.entries@[k as int].1->InUse_generation
                                            == generation);
                                        assert(objects@[j].0 == (xref.entries@[k as int].0,
                                        generation));
                                        assert(objects@[j].1 == ov);
                                    }
                                }
                                assert(spec_objects_from_xref(input@, *xref, objects@));
                                assert forall|i: int, j: int|
                                    0 <= i < objects@.len() && k + 1 <= j
                                        < n implies (#[trigger] objects@[i]).0.0 < (
                                #[trigger] xref.entries@[j]).0 by {
                                    if i < objects@.len() - 1 {
                                    } else {
                                        assert(objects@[i].0.0 == key);
                                        assert(xref.entries@[k as int].0
                                            < xref.entries@[j].0);
                                    }
                                }
                                assert(objects@[objects@.len() - 1].0 == (
                                    xref.entries@[k as int].0,
                                    xref.entries@[k as int].1->InUse_generation,
                                ));
                                assert forall|i: int|
                                    0 <= i < objects@.len() - 1 implies objects@[i]
                                    == prior_objs[i] by {}
                            }
                        },
                    }
                } else {
                    proof {
                        assert(crate::scan::spec_skip_ws(input@, offset as int) == offset);
                        assert(spec_object_beginning(input@, offset as int) is None);
                        assert(false);
                    }
                }
            },
        }
        k = k + 1;
    }
    Ok(objects)
}

/// Loads a document from the raw bytes of a file: the header version, the
/// cross-reference table by either strategy, and every object the table
/// names. Every in-use entry of the loaded table points at the header of
/// exactly the object it names, and every loaded stream's payload is a
/// contiguous sub-slice of `input`.
pub fn from_bytes(input: &[u8]) -> (r: Result<Document, PdfError>)
    ensures
        match r {
            Ok(doc) => {
                &&& doc.wf()
                &&& spec_xref_accurate(input@, doc.xref)
                &&& forall|i: int|
                    0 <= i < doc.objects@.len() ==> spec_object_content_from(
                        input@,
                        #[trigger] doc.objects@[i].1,
                    )
                &&& forall|i: int|
                    0 <= i < doc.objects@.len() ==> spec_object_sound(
                        input@,
                        #[trigger] doc.objects@[i].1,
                    )
                &&& crate::xref::spec_primary_ok(input@, doc.xref, doc.trailer) || (
                crate::xref::spec_primary_err(input@) && crate::xref::spec_fallback_ok(
                    input@,
                    doc.xref,
                    doc.trailer,
                ))
                &&& exists|k: int|
                    {
                        &&& 0 <= k
                        &&& k + 5 <= input@.len()
                        &&& #[trigger] input@.subrange(k, k + 5) == seq![37u8, 80u8, 68u8,
                            70u8, 45u8]
                        &&& k + 5 <= 50
                        &&& ({
                            let p = k + 5;
                            if crate::numbers::spec_real_form(input@, p)
                                && crate::numbers::spec_real_mag_micros(input@, p)
                                <= crate::numbers::REAL_LIMIT {
                                doc.version.micros == crate::numbers::spec_real_mag_micros(
                                    input@,
                                    p,
                                )
                            } else {
                                doc.version.micros == crate::scan::spec_digits_val(
                                    input@,
                                    p,
                                    crate::scan::spec_digits_end(input@, p),
                                ) * 1000000
                            }
                        })
                    }
                &&& spec_objects_from_xref(input@, doc.xref, doc.objects@)
                &&& spec_objects_complete(input@, doc.xref, doc.objects@)
            },
            Err(_) => spec_version_absent(input@) || (crate::xref::spec_primary_err(input@)
                && crate::xref::spec_fallback_err(input@)),
        },
{
    let version = match parse_version(input) {
        None => {
            return Err(PdfError::Parse(ParseError::Malformed(0)));
        },
        Some(v) => v,
    };
    let (xref, trailer) = match crate::xref::make_xref_table(input) {
        Err(e) => {
            return Err(e);
        },
        Ok(x) => x,
    };
    let objects = match all_objects(input, &xref) {
        Err(e) => {
            return Err(e);
        },
        Ok(o) => o,
    };
    let doc = Document { version, xref, trailer, objects };
    proof {
        assert forall|i: int| 0 <= i < doc.objects@.len() implies spec_object_wf(
            #[trigger] doc.objects@[i].1,
        ) by {
            lemma_sound_gives_wf(input@, doc.objects@[i].1);
        }
        assert forall|i: int| 0 <= i < doc.objects@.len() implies spec_object_content_from(
            input@,
            #[trigger] doc.objects@[i].1,
        ) by {
            lemma_sound_gives_content(input@, doc.objects@[i].1);
        }
    }
    Ok(doc)
}

} // verus!
