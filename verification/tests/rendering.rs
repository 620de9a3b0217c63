//! Tests for the diagnostic text of the object tree: the one-line form
//! and the indented form.

use pdfgeom::numbers::Fixed;
use pdfgeom::object::{Dictionary, Object, Stream, StringFormat};

fn entry(d: &mut Dictionary, key: &[u8], value: Object) {
    d.insert(key.to_vec(), value);
}

fn sample_object() -> Object {
    let mut font = Dictionary::new();
    entry(&mut font, b"F1", Object::Reference((9, 0)));
    let mut resources = Dictionary::new();
    entry(&mut resources, b"Font", Object::Dictionary(font));
    entry(&mut resources, b"ProcSet", Object::Reference((8, 0)));
    let mut page = Dictionary::new();
    entry(&mut page, b"Type", Object::Name(b"Page".to_vec()));
    entry(&mut page, b"Parent", Object::Reference((3, 0)));
    entry(&mut page, b"Resources", Object::Dictionary(resources));
    entry(
        &mut page,
        b"MediaBox",
        Object::Array(vec![
            Object::Integer(0),
            Object::Integer(0),
            Object::Real(Fixed { micros: 612000000 }),
            Object::Real(Fixed { micros: 792000000 }),
        ]),
    );
    entry(&mut page, b"Contents", Object::Reference((5, 0)));
    let mut stream_dict = Dictionary::new();
    entry(&mut stream_dict, b"Type", Object::Name(b"Stream".to_vec()));
    Object::Array(vec![
        Object::Real(Fixed { micros: 1230000 }),
        Object::Integer(20),
        Object::Name(b"lime Green".to_vec()),
        Object::Boolean(true),
        Object::Null,
        Object::Reference((78, 40)),
        Object::String(b"Hello".to_vec(), StringFormat::Hexadecimal),
        Object::String(b"There".to_vec(), StringFormat::Literal),
        Object::Dictionary(page),
        Object::Stream(Stream {
            dict: stream_dict,
            content: vec![78, 98, 225],
            allows_compression: false,
            start_position: None,
        }),
    ])
}

#[test]
fn test_debug_pretty() {
    let obj = sample_object();
    assert_eq!(
        obj.debug_object_pretty(1),
        "[
    1.23,
    20,
    /lime Green,
    true,
    <null>,
    (78, 40),
    \"Hello\",
    \"There\",
    {
        /Type => /Page
        /Parent => (3, 0)
        /Resources => {
            /Font => {
                /F1 => (9, 0)
            }
            /ProcSet => (8, 0)
        }
        /MediaBox => [
            0,
            0,
            612,
            792
        ]
        /Contents => (5, 0)
    },
    Stream => {
        Dict => {
            /Type => /Stream
        }
        Bytes (first 50) => Nb\u{FFFD}
    }
]"
    );
}

#[test]
fn test_debug() {
    let obj = sample_object();
    assert_eq!(
        obj.debug_object(),
        "[ 1.23, 20, /lime Green, true, <null>, (78, 40), \"Hello\", \"There\", { /Type => /Page, /Parent => (3, 0), /Resources => { /Font => { /F1 => (9, 0), }, /ProcSet => (8, 0), }, /MediaBox => [ 0, 0, 612, 792 ], /Contents => (5, 0), }, Stream => { Dict => { /Type => /Stream, }, Bytes (first 50) => Nb\u{FFFD} } ]"
    );
}

#[test]
fn numbers_render_exactly() {
    assert_eq!(Object::Integer(-7).debug_object(), "-7");
    assert_eq!(Object::Real(Fixed { micros: -2000 }).debug_object(), "-0.002");
    assert_eq!(Object::Real(Fixed { micros: 0 }).debug_object(), "0");
    assert_eq!(Object::Real(Fixed { micros: 34500000 }).debug_object(), "34.5");
}
