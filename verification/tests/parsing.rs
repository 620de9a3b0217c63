//! Tests for the byte scanners, number grammars, string decoders, object
//! parsers, cross-reference table and document loading.

use pdfgeom::document::{from_bytes, parse_version};
use pdfgeom::numbers::{parse_i64, parse_real_micros, Fixed};
use pdfgeom::object::{Dictionary, HandlingError, Object, StringFormat};
use pdfgeom::parse::{
    parse_array, parse_boolean, parse_dict_or_stream, parse_name_obj, parse_null,
    parse_object_id, parse_reference, parse_string, parse_string_hex, parse_string_literal,
};
use pdfgeom::scan::{is_eol, is_whitespace, skip_ws};
use pdfgeom::xref::{
    assert_all_xref_entry_offsets_are_accurate, find_all_object_ids, Xref, XrefEntry,
};
use pdfgeom::error::{ParseError, PdfError, XrefError};
use pdfgeom::shared::NumberError;

fn name_of(input: &[u8]) -> Vec<u8> {
    parse_name_obj(input, 0).expect("name should parse").1
}

#[test]
fn test_name() {
    assert_eq!(name_of(b"/"), b"".to_vec());
    assert_eq!(name_of(b"/Name1"), b"Name1".to_vec());
    assert_eq!(name_of(b"/ASomewhatLongerName"), b"ASomewhatLongerName".to_vec());
    assert_eq!(
        name_of(b"/A;Name_With-Various***Characters?"),
        b"A;Name_With-Various***Characters?".to_vec()
    );
    assert_eq!(name_of(b"/1.2"), b"1.2".to_vec());
    assert_eq!(name_of(b"/$$"), b"$$".to_vec());
    assert_eq!(name_of(b"/@pattern"), b"@pattern".to_vec());
    assert_eq!(name_of(b"/.notdef"), b".notdef".to_vec());
    assert_eq!(name_of(b"/lime#20Green"), b"lime Green".to_vec());
    assert_eq!(name_of(b"/paired#28#29parentheses"), b"paired()parentheses".to_vec());
    assert_eq!(name_of(b"/The_Key_of_F#23_Minor"), b"The_Key_of_F#_Minor".to_vec());
    assert_eq!(name_of(b"/A#42"), b"AB".to_vec());
}

#[test]
fn test_object_id() {
    assert_eq!(parse_object_id(b"255 10001", 0).unwrap().1, (255, 10001));
    assert_eq!(parse_object_id(b"1 0", 0).unwrap().1, (1, 0));
    assert_eq!(parse_object_id(b"1 0 R", 0).unwrap().1, (1, 0));
    assert_eq!(parse_object_id(b"4294967295 0", 0).unwrap().1, (u32::MAX, 0));
    assert_eq!(parse_object_id(b"0000000001 0", 0).unwrap().1, (1, 0));
    assert_eq!(parse_object_id(b"1 0000000000", 0).unwrap().1, (1, 0));
}

#[test]
fn test_reference() {
    assert_eq!(parse_reference(b"255 10001 R", 0).unwrap().1, (255, 10001));
    assert_eq!(parse_reference(b"1 0 R", 0).unwrap().1, (1, 0));
    assert_eq!(parse_reference(b"4294967295 0 R", 0).unwrap().1, (u32::MAX, 0));
    assert_eq!(parse_reference(b"0000000001 0 R", 0).unwrap().1, (1, 0));
    assert_eq!(parse_reference(b"1 0000000000 R", 0).unwrap().1, (1, 0));
}

#[test]
fn test_null() {
    assert!(parse_null(b"null", 0).is_some());
    assert!(parse_null(b"NULL", 0).is_some());
    assert!(parse_null(b"Null", 0).is_some());
    assert!(parse_null(b"  Null  ", 0).is_some());
}

#[test]
fn test_boolean() {
    assert_eq!(parse_boolean(b"true", 0).unwrap().1, true);
    assert_eq!(parse_boolean(b"false", 0).unwrap().1, false);
    assert_eq!(parse_boolean(b"FALSE", 0).unwrap().1, false);
    assert_eq!(parse_boolean(b"False", 0).unwrap().1, false);
    assert_eq!(parse_boolean(b"  True ", 0).unwrap().1, true);
}

#[test]
fn test_whitespace() {
    assert_eq!(is_whitespace(b' '), true);
}

#[test]
fn test_eol() {
    assert_eq!(is_eol(b"\n"), true);
    assert_eq!(is_eol(b"\r\n"), true);
    assert_eq!(is_eol(b"\r"), true);
    assert_eq!(is_eol(b""), false);
    assert_eq!(is_eol(b" "), false);
    assert_eq!(is_eol(b"something"), false);
}

#[test]
fn test_integer() {
    assert_eq!(parse_i64(b"-10", 0).unwrap().1, -10);
    assert_eq!(parse_i64(b"100000", 0).unwrap().1, 100000);
}

#[test]
fn test_real() {
    // values carry six fractional digits exactly; further digits drop
    assert_eq!(parse_real_micros(b"100.4292498", 0).unwrap().1, 100429249);
    assert_eq!(parse_real_micros(b"+100.4292498", 0).unwrap().1, 100429249);
    assert_eq!(parse_real_micros(b"-100.4292498", 0).unwrap().1, -100429249);
    assert_eq!(parse_real_micros(b"-.4292498", 0).unwrap().1, -429249);
    assert_eq!(parse_real_micros(b"-0.4292498", 0).unwrap().1, -429249);
    assert_eq!(parse_real_micros(b"34.5", 0).unwrap().1, 34500000);
    assert_eq!(parse_real_micros(b"-3.62", 0).unwrap().1, -3620000);
    assert_eq!(parse_real_micros(b"-123.6", 0).unwrap().1, -123600000);
    assert_eq!(parse_real_micros(b"4.", 0).unwrap().1, 4000000);
    assert_eq!(parse_real_micros(b"-.002", 0).unwrap().1, -2000);
    assert_eq!(parse_real_micros(b"0.0", 0).unwrap().1, 0);
}

#[test]
fn real_grammar_boundaries() {
    assert!(parse_real_micros(b".5", 0).is_some());
    assert!(parse_real_micros(b"5.", 0).is_some());
    assert!(parse_real_micros(b"+5.0", 0).is_some());
    assert!(parse_real_micros(b"-.002", 0).is_some());
    assert!(parse_real_micros(b".", 0).is_none());
    assert!(parse_real_micros(b"5", 0).is_none());
    assert!(parse_real_micros(b"", 0).is_none());
}

#[test]
fn test_array() {
    assert_eq!(parse_array(b"[]", 0).unwrap().1, Vec::<Object>::new());
    assert_eq!(
        parse_array(b"[68 69]", 0).unwrap().1,
        vec![Object::Integer(68), Object::Integer(69)]
    );
    assert_eq!(
        parse_array(b"[0 0 612.0000 792.0000]", 0).unwrap().1,
        vec![
            Object::Integer(0),
            Object::Integer(0),
            Object::Real(Fixed { micros: 612000000 }),
            Object::Real(Fixed { micros: 792000000 }),
        ]
    );
}

fn string_bytes(input: &[u8]) -> Vec<u8> {
    parse_string(input, 0).expect("string should parse").1
}

#[test]
fn test_string() {
    let (end, _, _) = parse_string(b"(this is a string) Tj", 0).unwrap();
    assert_eq!(&b"(this is a string) Tj"[end..], b"Tj");
    assert_eq!(
        string_bytes(b"(This is a string) and this is junk"),
        b"This is a string".to_vec()
    );
    assert_eq!(
        string_bytes(b"(Strings may contain\nnewlines and such.) and this is junk"),
        b"Strings may contain\nnewlines and such.".to_vec()
    );
    assert_eq!(
        string_bytes(
            b"(Strings may contain (balanced parenthesis) as well as special chars (e.g. $%^&)) and this is junk"
        ),
        b"Strings may contain (balanced parenthesis) as well as special chars (e.g. $%^&)"
            .to_vec()
    );
    assert_eq!(
        string_bytes(b"(Strings may have escaped unbalanced \\( in addition to (balanced)))"),
        b"Strings may have escaped unbalanced ( in addition to (balanced))".to_vec()
    );
    assert_eq!(string_bytes(b"(literal backslack \\\\)"), b"literal backslack \\".to_vec());
    assert_eq!(string_bytes(b"(this is all \\none line)"), b"this is all one line".to_vec());
    assert_eq!(string_bytes(b"(\\032)"), vec![26u8]);
    assert_eq!(string_bytes(b"(printable octal \\122\\123\\124)"), b"printable octal RST".to_vec());
    assert_eq!(string_bytes(b"(\\53)"), b"+".to_vec());
    assert_eq!(string_bytes(b"(\\7)"), vec![7u8]);
    assert_eq!(string_bytes(b"(\\0053)"), vec![5u8, 51u8]);
    assert_eq!(string_bytes(b"(\\\\7)"), b"\\7".to_vec());
    assert_eq!(string_bytes(b"<68656C6C6F>"), b"hello".to_vec());
    assert_eq!(string_bytes(b"<901FA>"), vec![144u8, 31u8, 160u8]);
}

#[test]
fn string_formats_are_tagged() {
    assert_eq!(parse_string(b"(ab)", 0).unwrap().2, StringFormat::Literal);
    assert_eq!(parse_string(b"<6162>", 0).unwrap().2, StringFormat::Hexadecimal);
}

#[test]
fn odd_hex_decodes_as_padded() {
    // an odd-length hex string decodes exactly as the same digits with a
    // trailing zero
    assert_eq!(
        parse_string_hex(b"<901FA>", 0).unwrap().1,
        parse_string_hex(b"<901FA0>", 0).unwrap().1
    );
    assert_eq!(
        parse_string_hex(b"<ABC>", 0).unwrap().1,
        parse_string_hex(b"<ABC0>", 0).unwrap().1
    );
}

#[test]
fn nested_parens_need_no_escape() {
    assert_eq!(string_bytes(b"(a(b(c)d)e))"), b"a(b(c)d)e".to_vec());
}

#[test]
fn octal_escape_value() {
    // \NNN is N*64 + N*8 + N
    assert_eq!(string_bytes(b"(\\123)"), vec![1 * 64 + 2 * 8 + 3]);
    assert_eq!(string_bytes(b"(\\377)"), vec![255u8]);
}

#[test]
fn test_stream() {
    let input: &[u8] = b"<< /Length 1074 >> stream wow endstream";
    let (_, obj) = parse_dict_or_stream(input, 0).unwrap();
    match obj {
        Object::Stream(st) => {
            assert_eq!(st.dict.len(), 1);
            assert_eq!(
                st.dict.get(b"Length").unwrap(),
                &Object::Integer(1074)
            );
            assert_eq!(st.content, vec![119u8, 111u8, 119u8, 32u8]);
            assert_eq!(st.allows_compression, false);
            assert_eq!(st.start_position, None);
        },
        other => panic!("expected a stream, got {:?}", other),
    }
}

#[test]
fn test_find_object_ids() {
    let input = b"\n1 0 obj\nsome junk\n000002 00000 obj\n";
    let objects = find_all_object_ids(input);
    assert_eq!(objects, vec![((1, 0), 0), ((2, 0), 19)]);
}

#[test]
fn test_comment() {
    assert_eq!(skip_ws(b"%hi\n", 0), 4);
}

#[test]
fn test_space_never_fails() {
    assert_eq!(skip_ws(b"", 0), 0);
    assert_eq!(skip_ws(b"blah", 0), 0);
    assert_eq!(skip_ws(b" ", 0), 1);
    assert_eq!(skip_ws(b"%comment\n", 0), 9);
    assert_eq!(skip_ws(b"%doublecomment\n  ", 0), 17);
}

#[test]
fn test_version() {
    assert_eq!(parse_version(b"%PDF-1.3").expect("could not parse version").micros, 1300000);
}

#[test]
fn dictionary_last_write_wins() {
    let mut d = Dictionary::new();
    assert_eq!(d.insert(b"K".to_vec(), Object::Integer(1)), None);
    assert_eq!(d.insert(b"L".to_vec(), Object::Integer(2)), None);
    assert_eq!(d.insert(b"K".to_vec(), Object::Integer(3)), Some(Object::Integer(1)));
    assert_eq!(d.len(), 2);
    // the repeated key keeps its position
    assert_eq!(d.key_at(0), &b"K".to_vec());
    assert_eq!(d.value_at(0), &Object::Integer(3));
    assert_eq!(d.get(b"L").unwrap(), &Object::Integer(2));
    assert!(matches!(d.get(b"M"), Err(HandlingError::ObjectNotFound)));
}

#[test]
fn object_casts_carry_their_error() {
    assert!(matches!(Object::Null.as_i64(), Err(HandlingError::ObjectCast)));
    assert_eq!(Object::Integer(7).as_i64().unwrap(), 7);
    assert!(Object::Null.is_null());
    assert_eq!(Object::Reference((3, 1)).as_reference().unwrap(), (3, 1));
}

#[test]
fn xref_insert_keeps_ascending_order() {
    let mut x = Xref::new();
    x.insert(5, XrefEntry::Free);
    x.insert(1, XrefEntry::InUse { offset: 10, generation: 0 });
    x.insert(3, XrefEntry::Free);
    assert_eq!(x.len(), 3);
    assert_eq!(x.entry_at(0).0, 1);
    assert_eq!(x.entry_at(1).0, 3);
    assert_eq!(x.entry_at(2).0, 5);
    // replacing keeps position and returns the prior entry
    let prior = x.insert(3, XrefEntry::InUse { offset: 9, generation: 2 });
    assert_eq!(prior, Some(XrefEntry::Free));
    assert_eq!(x.len(), 3);
}

#[test]
fn xref_validation_reports_mismatches() {
    let input = b"1 0 obj null endobj";
    let mut x = Xref::new();
    x.insert(1, XrefEntry::InUse { offset: 0, generation: 0 });
    assert!(assert_all_xref_entry_offsets_are_accurate(input, &x).is_ok());

    let mut wrong = Xref::new();
    wrong.insert(2, XrefEntry::InUse { offset: 0, generation: 0 });
    assert_eq!(
        assert_all_xref_entry_offsets_are_accurate(input, &wrong),
        Err(XrefError::FoundWrongObjectForExpectedEntry(((2, 0), (1, 0))))
    );

    let mut bad = Xref::new();
    bad.insert(1, XrefEntry::InUse { offset: 5, generation: 0 });
    assert!(matches!(
        assert_all_xref_entry_offsets_are_accurate(input, &bad),
        Err(XrefError::XrefTableInvalidEntry((1, 0)))
    ));

    let mut comp = Xref::new();
    comp.insert(1, XrefEntry::Compressed { container: 2, index: 0 });
    assert_eq!(
        assert_all_xref_entry_offsets_are_accurate(input, &comp),
        Err(XrefError::Unsupported)
    );
}

/// A small two-page file, assembled with exact offsets for its table.
fn sample_pdf_bytes() -> Vec<u8> {
    let mut out: Vec<u8> = Vec::new();
    let mut offsets: Vec<usize> = Vec::new();
    out.extend_from_slice(b"%PDF-1.3\n");
    let bodies: [&[u8]; 5] = [
        b"1 0 obj\n<< /Type /Catalog /Pages 2 0 R >>\nendobj\n",
        b"2 0 obj\n<< /Type /Pages /Kids [4 0 R 6 0 R] /Count 2 >>\nendobj\n",
        b"4 0 obj\n<< /Type /Page /Contents 5 0 R >>\nendobj\n",
        b"5 0 obj\n<< /Length 21 >>\nstream\n500 500 m\n600 600 l\nf\nendstream\nendobj\n",
        b"6 0 obj\n<< /Type /Page >>\nendobj\n",
    ];
    for body in bodies.iter() {
        offsets.push(out.len());
        out.extend_from_slice(body);
    }
    let xref_at = out.len();
    out.extend_from_slice(b"xref\n0 1\n0000000000 65535 f \n");
    for (i, id) in [1u32, 2, 4, 5, 6].iter().enumerate() {
        out.extend_from_slice(format!("{} 1\n{:010} 00000 n \n", id, offsets[i]).as_bytes());
    }
    out.extend_from_slice(b"trailer\n<< /Size 12 /Root 1 0 R >>\nstartxref\n");
    out.extend_from_slice(format!("{}\n", xref_at).as_bytes());
    out.extend_from_slice(b"%%EOF\n");
    out
}

#[test]
fn sample_document_loads_with_table() {
    let bytes = sample_pdf_bytes();
    let doc = from_bytes(&bytes).expect("could not parse sample");
    assert_eq!(doc.version.micros, 1300000);
    assert_eq!(doc.trailer.get(b"Root").unwrap().as_reference().unwrap(), (1, 0));
    assert_eq!(doc.trailer.get(b"Size").unwrap().as_i64().unwrap(), 12);
    assert_eq!(doc.get_page_ids().unwrap(), vec![(4, 0), (6, 0)]);
}

#[test]
fn sample_document_loads_without_table() {
    // corrupt the table so the loader falls back to scanning for headers
    let bytes = sample_pdf_bytes();
    let text = String::from_utf8_lossy(&bytes).to_string();
    let broken = text.replace("xref\n0 1\n", "xref\n0 1\ngarbage ");
    let doc = from_bytes(broken.as_bytes()).expect("could not parse sample");
    assert_eq!(doc.version.micros, 1300000);
    assert_eq!(doc.trailer.get(b"Size").unwrap().as_i64().unwrap(), 12);
    assert_eq!(doc.get_page_ids().unwrap(), vec![(4, 0), (6, 0)]);
}

#[test]
fn sample_page_content_parses() {
    let bytes = sample_pdf_bytes();
    let doc = from_bytes(&bytes).expect("could not parse sample");
    let page = doc.get_object((4, 0)).unwrap().as_dict().unwrap();
    let contents = page.get(b"Contents").unwrap().as_contents_reference().unwrap();
    assert_eq!(contents, vec![(5, 0)]);
    let stream = doc.get_object((5, 0)).unwrap().as_stream().unwrap();
    assert!(stream.get_content().is_ok());
}

#[test]
fn junk_input_is_rejected() {
    assert!(from_bytes(b"this is not a document").is_err());
    assert!(from_bytes(b"").is_err());
}

#[test]
fn unparsed_stream_tail_is_an_error() {
    let input: &[u8] = b"<< /Length 3 >> stream 500 500 m ???garbage endstream";
    let (_, obj) = parse_dict_or_stream(input, 0).unwrap();
    match obj {
        Object::Stream(st) => match st.get_content() {
            Err(ParseError::FailedToParseAllStreamContent(rest)) => {
                assert!(!rest.is_empty());
            },
            other => panic!("expected leftover content, got {:?}", other),
        },
        other => panic!("expected a stream, got {:?}", other),
    }
}

#[test]
fn filenames_spell_object_ids() {
    assert_eq!(pdfgeom::utils::object_id_to_filename((4, 0)), "4-0");
    assert_eq!(pdfgeom::utils::object_id_to_filename((120, 65535)), "120-65535");
}

#[test]
fn xref_size_tracks_highest_object_number() {
    let mut x = Xref::new();
    assert_eq!(x.size, 0);
    x.insert(4, XrefEntry::Free);
    assert_eq!(x.size, 5);
    x.insert(1, XrefEntry::Free);
    assert_eq!(x.size, 5);
    x.insert(11, XrefEntry::InUse { offset: 0, generation: 0 });
    assert_eq!(x.size, 12);
}

#[test]
fn numbers_widen_or_refuse() {
    assert_eq!(Object::Integer(612).as_number(), Ok(Fixed { micros: 612000000 }));
    assert_eq!(
        Object::Integer(i64::MAX).as_number(),
        Err(PdfError::Number(NumberError::InvalidNumberConversion))
    );
    assert!(matches!(
        Object::Null.as_number(),
        Err(PdfError::Handling(HandlingError::ObjectCast))
    ));
}

#[test]
fn carriage_return_continuation_at_region_end() {
    // `\r` followed by any byte is a continuation: the pair vanishes and
    // the next byte stays
    let mid: Vec<u8> = vec![40, 97, 92, 114, 90, 98, 41]; // (a \r Z b)
    assert_eq!(parse_string_literal(&mid, 0).unwrap().1, b"aZb".to_vec());
    // a `\r\n` pair right at the region end cannot take a following
    // byte, so the lone `\r` consumes the backslash and leaves `n`
    let tail: Vec<u8> = vec![40, 97, 92, 114, 92, 110, 41]; // (a \r \n)
    assert_eq!(parse_string_literal(&tail, 0).unwrap().1, vec![97, 92, 110]);
}

#[test]
fn literal_strings_keep_escaped_delimiters() {
    // the taker counts even escaped parentheses, so a balancing closer
    // follows; the escape decodes to the bare delimiter
    assert_eq!(parse_string_literal(b"(a\\(b))", 0).unwrap().1, b"a(b)".to_vec());
}
