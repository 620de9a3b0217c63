//! The typed object tree of a document: the `Object` union, dictionaries
//! with insertion order and last-write-wins keys, and streams whose
//! payload is a contiguous slice of the input buffer.

use vstd::prelude::*;

use crate::numbers::Fixed;
use crate::ObjectId;

verus! {

/// Errors of object handling: a value read as the wrong variant, or a
/// lookup that found nothing.
#[derive(Debug, Clone, Copy, PartialEq, Eq, Structural)]
pub enum HandlingError {
    ObjectCast,
    ObjectNotFound,
}

/// String objects can be written in two formats.
#[derive(Debug, Clone, Copy, PartialEq, Eq, Structural)]
pub enum StringFormat {
    Literal,
    Hexadecimal,
}

/// A name: its bytes with all `#xx` escapes expanded.
pub type Name = Vec<u8>;

/// An insertion-ordered dictionary from names to objects. Keys are unique;
/// writing an existing key replaces its value in place.
#[derive(Debug, PartialEq)]
pub struct Dictionary {
    pub entries: Vec<(Name, Object)>,
}

/// A stream: its dictionary and its payload bytes, which quote a
/// contiguous region of the input buffer.
#[derive(Debug, PartialEq)]
pub struct Stream {
    /// Associated stream dictionary.
    pub dict: Dictionary,
    /// Contents of the stream in bytes.
    pub content: Vec<u8>,
    /// Whether the payload may be compressed when written back out.
    pub allows_compression: bool,
    /// The payload's position in the file, when known.
    pub start_position: Option<usize>,
}

/// Basic object types of the format.
#[derive(Debug, PartialEq)]
pub enum Object {
    Null,
    Boolean(bool),
    Integer(i64),
    Real(Fixed),
    Name(Name),
    String(Vec<u8>, StringFormat),
    Array(Vec<Object>),
    Dictionary(Dictionary),
    Stream(Stream),
    Reference(ObjectId),
}

/// Compares two byte strings for equality.
pub fn bytes_eq(a: &[u8], b: &[u8]) -> (r: bool)
    ensures
        r == (a@ == b@),
{
    if a.len() != b.len() {
        proof {
            assert(a@.len() != b@.len());
        }
        return false;
    }
    let n = a.len();
    let mut i: usize = 0;
    while i < n
        invariant
            0 <= i <= n,
            n == a@.len(),
            n == b@.len(),
            forall|m: int| 0 <= m < i ==> a@[m] == b@[m],
        decreases n - i,
    {
        if a[i] != b[i] {
            return false;
        }
        i = i + 1;
    }
    proof {
        assert(a@ =~= b@);
    }
    true
}

impl Dictionary {
    /// Index of the entry that holds `key`, if any.
    pub open spec fn spec_key_idx(self, key: Seq<u8>) -> int {
        choose|i: int| 0 <= i < self.entries@.len() && self.entries@[i].0@ == key
    }

    pub open spec fn spec_contains_key(self, key: Seq<u8>) -> bool {
        exists|i: int| 0 <= i < self.entries@.len() && self.entries@[i].0@ == key
    }

    /// The value stored under `key`.
    pub open spec fn spec_value(self, key: Seq<u8>) -> Object {
        self.entries@[self.spec_key_idx(key)].1
    }

    /// Keys are unique.
    pub open spec fn wf(self) -> bool {
        forall|i: int, j: int|
            0 <= i < j < self.entries@.len() ==> self.entries@[i].0@ != self.entries@[j].0@
    }

    pub fn new() -> (r: Dictionary)
        ensures
            r.entries@.len() == 0,
            r.wf(),
    {
        Dictionary { entries: Vec::new() }
    }

    pub fn len(&self) -> (r: usize)
        ensures
            r == self.entries@.len(),
    {
        self.entries.len()
    }

    /// Inserts `value` under `key`. An existing key keeps its position and
    /// its old value is returned; a new key is appended.
    pub fn insert(&mut self, key: Name, value: Object) -> (r: Option<Object>)
        requires
            old(self).wf(),
        ensures
            final(self).wf(),
            final(self).spec_contains_key(key@),
            if old(self).spec_contains_key(key@) {
                let i = old(self).spec_key_idx(key@);
                &&& final(self).entries@ == old(self).entries@.update(i, (key, value))
                &&& r == Some(old(self).entries@[i].1)
            } else {
                &&& final(self).entries@ == old(self).entries@.push((key, value))
                &&& r is None
            },
    {
        let n = self.entries.len();
        let mut i: usize = 0;
        while i < n
            invariant
                0 <= i <= n,
                n == self.entries@.len(),
                *self == *old(self),
                self.wf(),
                forall|m: int| 0 <= m < i ==> self.entries@[m].0@ != key@,
            decreases n - i,
        {
            if bytes_eq(self.entries[i].0.as_slice(), key.as_slice()) {
                proof {
                    assert(self.entries@[i as int].0@ == key@);
                    assert(self.spec_contains_key(key@));
                    assert(self.spec_key_idx(key@) == i as int) by {
                        let j = self.spec_key_idx(key@);
                        if j != i as int {
                            assert(self.entries@[j].0@ == key@);
                            assert(false);
                        }
                    }
                }
                let prior = self.entries.remove(i);
                self.entries.insert(i, (key, value));
                proof {
                    assert(self.entries@ =~= old(self).entries@.update(i as int, (key, value)));
                    assert(self.entries@[i as int].0@ == key@);
                    assert(self.spec_contains_key(key@));
                    assert forall|a: int, b: int|
                        0 <= a < b < self.entries@.len() implies self.entries@[a].0@
                        != self.entries@[b].0@ by {
                        if a != i && b != i {
                            assert(old(self).entries@[a].0@ != old(self).entries@[b].0@);
                        }
                    }
                }
                return Some(prior.1);
            }
            i = i + 1;
        }
        self.entries.push((key, value));
        proof {
            assert(self.entries@[n as int].0@ == key@);
            assert(self.spec_contains_key(key@));
            assert forall|a: int, b: int|
                0 <= a < b < self.entries@.len() implies self.entries@[a].0@
                != self.entries@[b].0@ by {
                if b < n {
                    assert(old(self).entries@[a].0@ != old(self).entries@[b].0@);
                } else {
                    assert(self.entries@[b].0@ == key@);
                    assert(self.entries@[a].0@ != key@);
                }
            }
        }
        None
    }

    /// Looks a key up; `ObjectNotFound` when it is absent.
    pub fn get(&self, key: &[u8]) -> (r: Result<&Object, HandlingError>)
        requires
            self.wf(),
        ensures
            match r {
                Ok(v) => self.spec_contains_key(key@) && *v == self.entries@[self.spec_key_idx(
                    key@,
                )].1,
                Err(e) => !self.spec_contains_key(key@) && e == HandlingError::ObjectNotFound,
            },
    {
        let n = self.entries.len();
        let mut i: usize = 0;
        while i < n
            invariant
                0 <= i <= n,
                n == self.entries@.len(),
                self.wf(),
                forall|m: int| 0 <= m < i ==> self.entries@[m].0@ != key@,
            decreases n - i,
        {
            if bytes_eq(self.entries[i].0.as_slice(), key) {
                proof {
                    assert(self.entries@[i as int].0@ == key@);
                    assert(self.spec_contains_key(key@));
                    let j = self.spec_key_idx(key@);
                    if j != i as int {
                        assert(self.entries@[j].0@ == key@);
                        assert(false);
                    }
                }
                return Ok(&self.entries[i].1);
            }
            i = i + 1;
        }
        Err(HandlingError::ObjectNotFound)
    }

    /// The key of the entry at `idx`, for iteration in insertion order.
    pub fn key_at(&self, idx: usize) -> (r: &Name)
        requires
            idx < self.entries@.len(),
        ensures
            *r == self.entries@[idx as int].0,
    {
        &self.entries[idx].0
    }

    /// The value of the entry at `idx`, for iteration in insertion order.
    pub fn value_at(&self, idx: usize) -> (r: &Object)
        requires
            idx < self.entries@.len(),
        ensures
            *r == self.entries@[idx as int].1,
    {
        &self.entries[idx].1
    }
}

impl Object {
    pub fn string_literal(s: Vec<u8>) -> (r: Object)
        ensures
            r == Object::String(s, StringFormat::Literal),
    {
        Object::String(s, StringFormat::Literal)
    }

    pub fn is_null(&self) -> (r: bool)
        ensures
            r == (self is Null),
    {
        match self {
            Object::Null => true,
            _ => false,
        }
    }

    pub fn as_bool(&self) -> (r: Result<bool, HandlingError>)
        ensures
            match r {
                Ok(v) => *self == Object::Boolean(v),
                Err(e) => !(self is Boolean) && e == HandlingError::ObjectCast,
            },
    {
        match self {
            Object::Boolean(v) => Ok(*v),
            _ => Err(HandlingError::ObjectCast),
        }
    }

    pub fn as_i64(&self) -> (r: Result<i64, HandlingError>)
        ensures
            match r {
                Ok(v) => *self == Object::Integer(v),
                Err(e) => !(self is Integer) && e == HandlingError::ObjectCast,
            },
    {
        match self {
            Object::Integer(v) => Ok(*v),
            _ => Err(HandlingError::ObjectCast),
        }
    }

    /// The value of a real object.
    pub fn as_real(&self) -> (r: Result<Fixed, HandlingError>)
        ensures
            match r {
                Ok(v) => *self == Object::Real(v),
                Err(e) => !(self is Real) && e == HandlingError::ObjectCast,
            },
    {
        match self {
            Object::Real(v) => Ok(*v),
            _ => Err(HandlingError::ObjectCast),
        }
    }

    /// The numeric value of an integer or real object: unlike `as_real`
    /// this also widens an integer. An integer beyond the fixed-point
    /// range cannot be converted.
    pub fn as_number(&self) -> (r: Result<Fixed, crate::error::PdfError>)
        ensures
            match r {
                Ok(v) => (*self == Object::Real(v)) || (self matches Object::Integer(n)
                    && -9223372036854 <= *n <= 9223372036854 && v.micros == *n * 1000000),
                Err(e) => match *self {
                    Object::Real(_) => false,
                    Object::Integer(n) => (n < -9223372036854 || n > 9223372036854) && e
                        == crate::error::PdfError::Number(
                        crate::shared::NumberError::InvalidNumberConversion,
                    ),
                    _ => e == crate::error::PdfError::Handling(HandlingError::ObjectCast),
                },
            },
    {
        match self {
            Object::Real(v) => Ok(*v),
            Object::Integer(n) => {
                if -9223372036854 <= *n && *n <= 9223372036854 {
                    Ok(Fixed::from_int(*n))
                } else {
                    Err(
                        crate::error::PdfError::Number(
                            crate::shared::NumberError::InvalidNumberConversion,
                        ),
                    )
                }
            },
            _ => Err(crate::error::PdfError::Handling(HandlingError::ObjectCast)),
        }
    }

    pub fn as_name(&self) -> (r: Result<&Vec<u8>, HandlingError>)
        ensures
            match r {
                Ok(v) => *self == Object::Name(*v),
                Err(e) => !(self is Name) && e == HandlingError::ObjectCast,
            },
    {
        match self {
            Object::Name(n) => Ok(n),
            _ => Err(HandlingError::ObjectCast),
        }
    }

    pub fn as_str(&self) -> (r: Result<&Vec<u8>, HandlingError>)
        ensures
            match r {
                Ok(v) => self matches Object::String(s, _) && *v == s,
                Err(e) => !(self is String) && e == HandlingError::ObjectCast,
            },
    {
        match self {
            Object::String(s, _) => Ok(s),
            _ => Err(HandlingError::ObjectCast),
        }
    }

    pub fn as_reference(&self) -> (r: Result<ObjectId, HandlingError>)
        ensures
            match r {
                Ok(v) => *self == Object::Reference(v),
                Err(e) => !(self is Reference) && e == HandlingError::ObjectCast,
            },
    {
        match self {
            Object::Reference(id) => Ok(*id),
            _ => Err(HandlingError::ObjectCast),
        }
    }

    pub fn as_array(&self) -> (r: Result<&Vec<Object>, HandlingError>)
        ensures
            match r {
                Ok(v) => *self == Object::Array(*v),
                Err(e) => !(self is Array) && e == HandlingError::ObjectCast,
            },
    {
        match self {
            Object::Array(a) => Ok(a),
            _ => Err(HandlingError::ObjectCast),
        }
    }

    pub fn as_dict(&self) -> (r: Result<&Dictionary, HandlingError>)
        ensures
            match r {
                Ok(v) => *self == Object::Dictionary(*v),
                Err(e) => !(self is Dictionary) && e == HandlingError::ObjectCast,
            },
    {
        match self {
            Object::Dictionary(d) => Ok(d),
            _ => Err(HandlingError::ObjectCast),
        }
    }

    pub fn as_stream(&self) -> (r: Result<&Stream, HandlingError>)
        ensures
            match r {
                Ok(v) => *self == Object::Stream(*v),
                Err(e) => !(self is Stream) && e == HandlingError::ObjectCast,
            },
    {
        match self {
            Object::Stream(s) => Ok(s),
            _ => Err(HandlingError::ObjectCast),
        }
    }

    /// The object ids a `Contents` entry names: one for a bare reference,
    /// each element's for an array of references.
    pub fn as_contents_reference(&self) -> (r: Result<Vec<ObjectId>, HandlingError>)
        ensures
            match r {
                Ok(ids) => match *self {
                    Object::Reference(id) => ids@ == seq![id],
                    Object::Array(items) => ids@.len() == items@.len() && forall|i: int|
                        0 <= i < items@.len() ==> items@[i] == Object::Reference(ids@[i]),
                    _ => false,
                },
                Err(e) => e == HandlingError::ObjectCast && match *self {
                    Object::Reference(_) => false,
                    Object::Array(items) => exists|i: int|
                        0 <= i < items@.len() && !(items@[i] is Reference),
                    _ => true,
                },
            },
    {
        match self {
            Object::Array(items) => {
                let mut r: Vec<ObjectId> = Vec::new();
                let n = items.len();
                let mut i: usize = 0;
                while i < n
                    invariant
                        0 <= i <= n,
                        n == items@.len(),
                        *self == Object::Array(*items),
                        r@.len() == i,
                        forall|m: int| 0 <= m < i ==> items@[m] == Object::Reference(r@[m]),
                    decreases n - i,
                {
                    match &items[i] {
                        Object::Reference(id) => {
                            r.push(*id);
                        },
                        _ => {
                            proof {
                                assert(self is Array);
                                assert(!(items@[i as int] is Reference));
                                assert(exists|m: int|
                                    0 <= m < items@.len() && !(items@[m] is Reference));
                            }
                            return Err(HandlingError::ObjectCast);
                        },
                    }
                    i = i + 1;
                }
                Ok(r)
            },
            Object::Reference(id) => {
                let mut r: Vec<ObjectId> = Vec::new();
                r.push(*id);
                proof {
                    assert(r@ =~= seq![*id]);
                }
                Ok(r)
            },
            _ => Err(HandlingError::ObjectCast),
        }
    }
}

/// The stream's payload is a contiguous sub-slice of the input buffer.
pub open spec fn spec_stream_content_from(input: Seq<u8>, st: Stream) -> bool {
    exists|k: int|
        0 <= k && k + st.content@.len() <= input.len() && st.content@ == #[trigger] input.subrange(
            k,
            k + st.content@.len(),
        )
}

/// Every stream inside the object quotes a contiguous sub-slice of the
/// input buffer.
pub open spec fn spec_object_content_from(input: Seq<u8>, o: Object) -> bool
    decreases o,
{
    match o {
        Object::Stream(st) => spec_stream_content_from(input, st),
        Object::Array(items) => forall|i: int|
            0 <= i < items@.len() ==> spec_object_content_from(input, #[trigger] items@[i]),
        Object::Dictionary(d) => forall|i: int|
            0 <= i < d.entries@.len() ==> spec_object_content_from(
                input,
                #[trigger] d.entries@[i].1,
            ),
        _ => true,
    }
}

/// The dictionary and everything under it is sound: keys unique, streams
/// quoting the input buffer.
pub open spec fn spec_dict_sound(input: Seq<u8>, d: Dictionary) -> bool {
    d.wf() && forall|i: int|
        0 <= i < d.entries@.len() ==> spec_object_sound(input, #[trigger] d.entries@[i].1)
}

/// Every dictionary in the object has unique keys, and every stream quotes
/// a contiguous sub-slice of the input buffer.
pub open spec fn spec_object_sound(input: Seq<u8>, o: Object) -> bool
    decreases o,
{
    match o {
        Object::Stream(st) => spec_stream_content_from(input, st) && st.dict.wf() && forall|
            i: int,
        |
            0 <= i < st.dict.entries@.len() ==> spec_object_sound(
                input,
                #[trigger] st.dict.entries@[i].1,
            ),
        Object::Array(items) => forall|i: int|
            0 <= i < items@.len() ==> spec_object_sound(input, #[trigger] items@[i]),
        Object::Dictionary(d) => d.wf() && forall|i: int|
            0 <= i < d.entries@.len() ==> spec_object_sound(input, #[trigger] d.entries@[i].1),
        _ => true,
    }
}

/// Every dictionary in the object has unique keys. This is the part of
/// soundness that object navigation relies on.
pub open spec fn spec_object_wf(o: Object) -> bool
    decreases o,
{
    match o {
        Object::Stream(st) => st.dict.wf() && forall|i: int|
            0 <= i < st.dict.entries@.len() ==> spec_object_wf(
                #[trigger] st.dict.entries@[i].1,
            ),
        Object::Array(items) => forall|i: int|
            0 <= i < items@.len() ==> spec_object_wf(#[trigger] items@[i]),
        Object::Dictionary(d) => d.wf() && forall|i: int|
            0 <= i < d.entries@.len() ==> spec_object_wf(#[trigger] d.entries@[i].1),
        _ => true,
    }
}

/// A sound object is well-formed whatever buffer it was read from.
pub proof fn lemma_sound_gives_wf(input: Seq<u8>, o: Object)
    requires
        spec_object_sound(input, o),
    ensures
        spec_object_wf(o),
    decreases o,
{
    match o {
        Object::Stream(st) => {
            assert forall|i: int| 0 <= i < st.dict.entries@.len() implies spec_object_wf(
                #[trigger] st.dict.entries@[i].1,
            ) by {
                lemma_sound_gives_wf(input, st.dict.entries@[i].1);
            }
        },
        Object::Array(items) => {
            assert forall|i: int| 0 <= i < items@.len() implies spec_object_wf(
                #[trigger] items@[i],
            ) by {
                lemma_sound_gives_wf(input, items@[i]);
            }
        },
        Object::Dictionary(d) => {
            assert forall|i: int| 0 <= i < d.entries@.len() implies spec_object_wf(
                #[trigger] d.entries@[i].1,
            ) by {
                lemma_sound_gives_wf(input, d.entries@[i].1);
            }
        },
        _ => {},
    }
}

/// Soundness carries the content law: a sound object's streams all quote
/// the input buffer.
pub proof fn lemma_sound_gives_content(input: Seq<u8>, o: Object)
    requires
        spec_object_sound(input, o),
    ensures
        spec_object_content_from(input, o),
    decreases o,
{
    match o {
        Object::Stream(st) => {},
        Object::Array(items) => {
            assert forall|i: int| 0 <= i < items@.len() implies spec_object_content_from(
                input,
                #[trigger] items@[i],
            ) by {
                lemma_sound_gives_content(input, items@[i]);
            }
        },
        Object::Dictionary(d) => {
            assert forall|i: int| 0 <= i < d.entries@.len() implies spec_object_content_from(
                input,
                #[trigger] d.entries@[i].1,
            ) by {
                lemma_sound_gives_content(input, d.entries@[i].1);
            }
        },
        _ => {},
    }
}

/// An object sound for a window of the input is sound for the whole input:
/// a slice of the window is a slice of the buffer it was cut from.
pub proof fn lemma_sound_embed(sub: Seq<u8>, input: Seq<u8>, a: int, b: int, o: Object)
    requires
        0 <= a <= b <= input.len(),
        sub == input.subrange(a, b),
        spec_object_sound(sub, o),
    ensures
        spec_object_sound(input, o),
    decreases o,
{
    match o {
        Object::Stream(st) => {
            let k = choose|k: int|
                0 <= k && k + st.content@.len() <= sub.len() && st.content@
                    == #[trigger] sub.subrange(k, k + st.content@.len());
            assert(st.content@ == input.subrange(a + k, a + k + st.content@.len())) by {
                assert(sub.subrange(k, k + st.content@.len()) =~= input.subrange(
                    a + k,
                    a + k + st.content@.len(),
                ));
            }
            assert(spec_stream_content_from(input, st));
            assert forall|i: int| 0 <= i < st.dict.entries@.len() implies spec_object_sound(
                input,
                #[trigger] st.dict.entries@[i].1,
            ) by {
                lemma_sound_embed(sub, input, a, b, st.dict.entries@[i].1);
            }
        },
        Object::Array(items) => {
            assert forall|i: int| 0 <= i < items@.len() implies spec_object_sound(
                input,
                #[trigger] items@[i],
            ) by {
                lemma_sound_embed(sub, input, a, b, items@[i]);
            }
        },
        Object::Dictionary(d) => {
            assert forall|i: int| 0 <= i < d.entries@.len() implies spec_object_sound(
                input,
                #[trigger] d.entries@[i].1,
            ) by {
                lemma_sound_embed(sub, input, a, b, d.entries@[i].1);
            }
        },
        _ => {},
    }
}

} // verus!
