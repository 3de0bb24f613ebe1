use gdsii::parser::{extract_i16, extract_str, Element, GdsEvent, GdsParser, ParseError};
use gdsii::reader::{RecordBody, RecordError};
use gdsii::writer::GdsWriter;
use gdsii::{DataType, RecordType};

fn gds_record(record_type: RecordType, data_type: DataType, body: &[u8]) -> Vec<u8> {
    let length = (4 + body.len()) as u16;
    let mut buf = Vec::new();
    buf.extend_from_slice(&length.to_be_bytes());
    buf.push(record_type.code());
    buf.push(data_type.code());
    buf.extend_from_slice(body);
    buf
}

fn no_data_record(record_type: RecordType) -> Vec<u8> {
    gds_record(record_type, DataType::NoData, &[])
}

fn i16_record(record_type: RecordType, value: i16) -> Vec<u8> {
    gds_record(record_type, DataType::TwoByteSignedInt, &value.to_be_bytes())
}

fn i32_record(record_type: RecordType, value: i32) -> Vec<u8> {
    gds_record(record_type, DataType::FourByteSignedInt, &value.to_be_bytes())
}

fn string_record(record_type: RecordType, s: &str) -> Vec<u8> {
    let mut body: Vec<u8> = s.bytes().collect();
    if body.len() % 2 != 0 {
        body.push(0x00);
    }
    gds_record(record_type, DataType::AsciiString, &body)
}

fn xy_record(coords: &[i32]) -> Vec<u8> {
    let body: Vec<u8> = coords.iter().flat_map(|c| c.to_be_bytes()).collect();
    gds_record(RecordType::Xy, DataType::FourByteSignedInt, &body)
}

fn bitarray_record(record_type: RecordType, value: u16) -> Vec<u8> {
    gds_record(record_type, DataType::BitArray, &value.to_be_bytes())
}

/// A minimal valid library around the bytes of its structures.
fn minimal_library(inner: &[u8]) -> Vec<u8> {
    let mut buf = Vec::new();
    buf.extend(i16_record(RecordType::Header, 5));
    buf.extend(gds_record(RecordType::BgnLib, DataType::TwoByteSignedInt, &[0u8; 24]));
    buf.extend(string_record(RecordType::LibName, "TEST"));
    buf.extend(gds_record(
        RecordType::Units,
        DataType::EightByteReal,
        &[
            0x3E, 0x41, 0x89, 0x37, 0x4B, 0xC6, 0xA7, 0xEF, // 0.001
            0x39, 0x44, 0xB8, 0x2F, 0xA0, 0x9B, 0x5A, 0x54, // 1e-9
        ],
    ));
    buf.extend_from_slice(inner);
    buf.extend(no_data_record(RecordType::EndLib));
    buf
}

/// A minimal structure around the bytes of its elements.
fn minimal_structure(name: &str, inner: &[u8]) -> Vec<u8> {
    let mut buf = Vec::new();
    buf.extend(gds_record(RecordType::BgnStr, DataType::TwoByteSignedInt, &[0u8; 24]));
    buf.extend(string_record(RecordType::StrName, name));
    buf.extend_from_slice(inner);
    buf.extend(no_data_record(RecordType::EndStr));
    buf
}

/// Every item the parser yields, up to its end.
fn all_items(data: &[u8]) -> Vec<Result<GdsEvent<'_>, ParseError>> {
    let mut parser = GdsParser::new(data);
    let mut out = Vec::new();
    while let Some(item) = parser.next() {
        out.push(item);
    }
    out
}

/// The events of `data`, or the first error.
fn collect_events(data: &[u8]) -> Result<Vec<GdsEvent<'_>>, ParseError> {
    all_items(data).into_iter().collect()
}

#[test]
fn extract_i16_wrong_body_type() {
    let body = RecordBody::NoData;
    assert!(extract_i16(&body, RecordType::Layer).is_err());
}

#[test]
fn extract_str_from_ascii() {
    let body = RecordBody::AsciiString("hello");
    assert_eq!(extract_str(&body, RecordType::LibName).unwrap(), "hello");
}

#[test]
fn parse_empty_library() {
    let data = minimal_library(&[]);
    let events = collect_events(&data).expect("parse failed");
    assert_eq!(events.len(), 2);
    assert!(matches!(events[0], GdsEvent::LibraryBegin(_)));
    assert!(matches!(events[1], GdsEvent::LibraryEnd));
}

#[test]
fn parse_empty_structure() {
    let structure = minimal_structure("CELL", &[]);
    let data = minimal_library(&structure);
    let events = collect_events(&data).expect("parse failed");
    assert_eq!(events.len(), 4);
    let GdsEvent::StructureBegin(s) = &events[1] else {
        panic!("expected StructureBegin");
    };
    assert_eq!(s.name, "CELL");
    assert!(matches!(events[2], GdsEvent::StructureEnd));
}

#[test]
fn parse_boundary_element() {
    let mut element = Vec::new();
    element.extend(no_data_record(RecordType::Boundary));
    element.extend(i16_record(RecordType::Layer, 5));
    element.extend(i16_record(RecordType::Datatype, 3));
    element.extend(xy_record(&[0, 0, 100, 0, 100, 100, 0, 100, 0, 0]));
    element.extend(no_data_record(RecordType::Endel));

    let structure = minimal_structure("TOP", &element);
    let data = minimal_library(&structure);
    let events = collect_events(&data).expect("parse failed");

    let GdsEvent::Element(Element::Boundary(b)) = &events[2] else {
        panic!("expected Boundary");
    };
    assert_eq!(b.layer, 5);
    assert_eq!(b.datatype, 3);
    assert_eq!(b.xy.len(), 10);
}

#[test]
fn parse_path_with_optional_fields() {
    let mut element = Vec::new();
    element.extend(no_data_record(RecordType::Path));
    element.extend(i16_record(RecordType::Layer, 1));
    element.extend(i16_record(RecordType::Datatype, 0));
    element.extend(i16_record(RecordType::Pathtype, 2));
    element.extend(i32_record(RecordType::Width, 500));
    element.extend(xy_record(&[0, 0, 1000, 0]));
    element.extend(no_data_record(RecordType::Endel));

    let structure = minimal_structure("TOP", &element);
    let data = minimal_library(&structure);
    let events = collect_events(&data).expect("parse failed");

    let GdsEvent::Element(Element::Path(p)) = &events[2] else {
        panic!("expected Path");
    };
    assert_eq!(p.pathtype, Some(2));
    assert_eq!(p.width, Some(500));
    assert_eq!(p.bgn_extn, None);
    assert_eq!(p.end_extn, None);
}

#[test]
fn parse_path_with_custom_extensions() {
    let mut element = Vec::new();
    element.extend(no_data_record(RecordType::Path));
    element.extend(i16_record(RecordType::Layer, 1));
    element.extend(i16_record(RecordType::Datatype, 0));
    element.extend(i16_record(RecordType::Pathtype, 4));
    element.extend(i32_record(RecordType::Width, 500));
    element.extend(i32_record(RecordType::BgnExtn, 250));
    element.extend(i32_record(RecordType::EndExtn, -100));
    element.extend(xy_record(&[0, 0, 1000, 0]));
    element.extend(no_data_record(RecordType::Endel));

    let structure = minimal_structure("TOP", &element);
    let data = minimal_library(&structure);
    let events = collect_events(&data).expect("parse failed");

    let GdsEvent::Element(Element::Path(p)) = &events[2] else {
        panic!("expected Path");
    };
    assert_eq!(p.pathtype, Some(4));
    assert_eq!(p.width, Some(500));
    assert_eq!(p.bgn_extn, Some(250));
    assert_eq!(p.end_extn, Some(-100));
}

#[test]
fn parse_path_without_optional_fields() {
    let mut element = Vec::new();
    element.extend(no_data_record(RecordType::Path));
    element.extend(i16_record(RecordType::Layer, 1));
    element.extend(i16_record(RecordType::Datatype, 0));
    element.extend(xy_record(&[0, 0, 1000, 0]));
    element.extend(no_data_record(RecordType::Endel));

    let structure = minimal_structure("TOP", &element);
    let data = minimal_library(&structure);
    let events = collect_events(&data).expect("parse failed");

    let GdsEvent::Element(Element::Path(p)) = &events[2] else {
        panic!("expected Path");
    };
    assert_eq!(p.pathtype, None);
    assert_eq!(p.width, None);
}

#[test]
fn parse_sref_with_strans() {
    let mut element = Vec::new();
    element.extend(no_data_record(RecordType::Sref));
    element.extend(string_record(RecordType::Sname, "CHILD"));
    element.extend(bitarray_record(RecordType::Strans, 0x8000));
    element.extend(xy_record(&[100, 200]));
    element.extend(no_data_record(RecordType::Endel));

    let structure = minimal_structure("TOP", &element);
    let data = minimal_library(&structure);
    let events = collect_events(&data).expect("parse failed");

    let GdsEvent::Element(Element::Sref(s)) = &events[2] else {
        panic!("expected Sref");
    };
    assert_eq!(s.sname, "CHILD");
    let strans = s.strans.expect("strans should be present");
    assert!(strans.reflection);
    assert!(!strans.abs_mag);
    assert_eq!(strans.mag, None);
}

#[test]
fn parse_element_with_elflags_and_plex() {
    let mut element = Vec::new();
    element.extend(no_data_record(RecordType::Boundary));
    element.extend(bitarray_record(RecordType::Elflags, 0x0002));
    element.extend(i32_record(RecordType::Plex, 42));
    element.extend(i16_record(RecordType::Layer, 0));
    element.extend(i16_record(RecordType::Datatype, 0));
    element.extend(xy_record(&[0, 0, 1, 0, 1, 1, 0, 1, 0, 0]));
    element.extend(no_data_record(RecordType::Endel));

    let structure = minimal_structure("TOP", &element);
    let data = minimal_library(&structure);
    let events = collect_events(&data).expect("parse failed");

    let GdsEvent::Element(Element::Boundary(b)) = &events[2] else {
        panic!("expected Boundary");
    };
    assert_eq!(b.elflags, Some(0x0002));
    assert_eq!(b.plex, Some(42));
}

#[test]
fn parse_element_with_properties() {
    let mut element = Vec::new();
    element.extend(no_data_record(RecordType::Boundary));
    element.extend(i16_record(RecordType::Layer, 0));
    element.extend(i16_record(RecordType::Datatype, 0));
    element.extend(xy_record(&[0, 0, 1, 0, 1, 1, 0, 1, 0, 0]));
    element.extend(i16_record(RecordType::Propattr, 1));
    element.extend(string_record(RecordType::Propvalue, "net_name"));
    element.extend(i16_record(RecordType::Propattr, 2));
    element.extend(string_record(RecordType::Propvalue, "signal"));
    element.extend(no_data_record(RecordType::Endel));

    let structure = minimal_structure("TOP", &element);
    let data = minimal_library(&structure);
    let events = collect_events(&data).expect("parse failed");

    assert_eq!(events.len(), 7);
    assert!(matches!(events[2], GdsEvent::Element(Element::Boundary(_))));

    let GdsEvent::Property(p1) = &events[3] else {
        panic!("expected Property");
    };
    assert_eq!(p1.attr, 1);
    assert_eq!(p1.value, "net_name");

    let GdsEvent::Property(p2) = &events[4] else {
        panic!("expected Property");
    };
    assert_eq!(p2.attr, 2);
    assert_eq!(p2.value, "signal");
}

#[test]
fn unexpected_record_in_library_state() {
    let mut data = Vec::new();
    data.extend(i16_record(RecordType::Header, 5));
    data.extend(gds_record(RecordType::BgnLib, DataType::TwoByteSignedInt, &[0u8; 24]));
    data.extend(string_record(RecordType::LibName, "LIB"));
    data.extend(gds_record(RecordType::Units, DataType::EightByteReal, &[0u8; 16]));
    data.extend(i16_record(RecordType::Layer, 0)); // LAYER where it does not belong

    let mut parser = GdsParser::new(&data);
    let first = parser.next().unwrap();
    assert!(first.is_ok());
    let second = parser.next().unwrap();
    assert!(second.is_err());
    assert!(parser.next().is_none(), "should be fused after error");
}

#[test]
fn unexpected_record_in_structure_state() {
    // UNITS does not belong inside a structure
    let bad_inner = gds_record(RecordType::Units, DataType::EightByteReal, &[0u8; 16]);
    let structure = minimal_structure("TOP", &bad_inner);
    let data = minimal_library(&structure);

    let events = all_items(&data);
    assert_eq!(events.len(), 3);
    assert!(events[0].is_ok());
    assert!(events[1].is_ok());
    assert!(events[2].is_err());
}

#[test]
fn fused_after_error() {
    let bytes: &[u8] = &[0x00, 0x04, 0x0D, 0x02];
    let mut parser = GdsParser::new(bytes);
    let first = parser.next().expect("should yield one event");
    assert!(first.is_err());
    assert!(parser.next().is_none());
    assert!(parser.next().is_none());
}

#[test]
fn empty_input_yields_eof_error() {
    let mut parser = GdsParser::new(&[] as &[u8]);
    let first = parser.next().expect("should yield one error");
    assert!(first.is_err());
    assert!(parser.next().is_none(), "should be fused after error");
}

#[test]
fn errors_name_what_went_wrong() {
    assert_eq!(
        collect_events(&[]).unwrap_err(),
        ParseError::UnexpectedEof { context: "library begin" }
    );

    let mut data = Vec::new();
    data.extend(i16_record(RecordType::Header, 5));
    data.extend(no_data_record(RecordType::EndLib));
    assert_eq!(
        collect_events(&data).unwrap_err(),
        ParseError::UnexpectedRecord { found: RecordType::EndLib, context: "library begin" }
    );

    let mut data = Vec::new();
    data.extend(string_record(RecordType::Header, "AB"));
    assert_eq!(
        collect_events(&data).unwrap_err(),
        ParseError::WrongBodyType {
            record_type: RecordType::Header,
            expected: "TwoByteSignedInt with ≥1 element",
        }
    );

    let truncated: &[u8] = &[0x00, 0x08, 0x00, 0x02, 0x00, 0x05];
    assert_eq!(
        collect_events(truncated).unwrap_err(),
        ParseError::Body(RecordError::Truncated { offset: 0, length: 8, available: 6 })
    );
}

#[test]
fn element_without_endel_is_an_error() {
    let mut element = Vec::new();
    element.extend(no_data_record(RecordType::Boundary));
    element.extend(i16_record(RecordType::Layer, 5));
    element.extend(i16_record(RecordType::Datatype, 3));
    element.extend(xy_record(&[0, 0, 1, 1]));
    let structure = minimal_structure("TOP", &element);
    let data = minimal_library(&structure);
    let items = all_items(&data);
    assert_eq!(items.len(), 3);
    assert_eq!(
        *items[2].as_ref().unwrap_err(),
        ParseError::UnexpectedRecord {
            found: RecordType::EndStr,
            context: "element end (expected ENDEL or PROPATTR)",
        }
    );
}

#[test]
fn consecutive_xy_records_join() {
    let mut element = Vec::new();
    element.extend(no_data_record(RecordType::Boundary));
    element.extend(i16_record(RecordType::Layer, 1));
    element.extend(i16_record(RecordType::Datatype, 0));
    element.extend(xy_record(&[0, 0, 5, 0]));
    element.extend(xy_record(&[5, 5, 0, 0]));
    element.extend(no_data_record(RecordType::Endel));
    let structure = minimal_structure("TOP", &element);
    let data = minimal_library(&structure);
    let events = collect_events(&data).expect("parse failed");
    let GdsEvent::Element(Element::Boundary(b)) = &events[2] else {
        panic!("expected Boundary");
    };
    assert_eq!(b.xy.as_slice(), &[0, 0, 5, 0, 5, 5, 0, 0]);
    assert_eq!(b.xy.num_points(), 4);
}

#[test]
fn library_header_options_and_units() {
    let mut data = Vec::new();
    data.extend(i16_record(RecordType::Header, 600));
    data.extend(gds_record(RecordType::BgnLib, DataType::TwoByteSignedInt, &[0u8; 24]));
    data.extend(string_record(RecordType::LibName, "LIB"));
    data.extend(string_record(RecordType::Reflibs, "REF"));
    data.extend(i16_record(RecordType::Generations, 3));
    data.extend(gds_record(
        RecordType::Units,
        DataType::EightByteReal,
        &[0x3E, 0x41, 0x89, 0x37, 0x4B, 0xC6, 0xA7, 0xEF, 0x39, 0x44, 0xB8, 0x2F, 0xA0, 0x9B, 0x5A, 0x54],
    ));
    data.extend(no_data_record(RecordType::EndLib));
    let events = collect_events(&data).expect("parse failed");
    let GdsEvent::LibraryBegin(lib) = &events[0] else {
        panic!("expected LibraryBegin");
    };
    assert_eq!(lib.version, 600);
    assert_eq!(lib.timestamps, vec![0i16; 12]);
    assert_eq!(lib.lib_name, "LIB");
    assert_eq!(lib.reflibs, Some("REF"));
    assert_eq!(lib.fonts, None);
    assert_eq!(lib.generations, Some(3));
    assert_eq!(lib.db_in_user.raw(), [0x3E, 0x41, 0x89, 0x37, 0x4B, 0xC6, 0xA7, 0xEF]);
    assert_eq!(lib.db_in_meters.raw(), [0x39, 0x44, 0xB8, 0x2F, 0xA0, 0x9B, 0x5A, 0x54]);
}

#[test]
fn non_canonical_input_rewrites_to_the_same_events() {
    let mut data = Vec::new();
    data.extend(i16_record(RecordType::Header, 5));
    data.extend(gds_record(RecordType::BgnLib, DataType::TwoByteSignedInt, &[0u8; 24]));
    // Two padding nulls where the writer puts none.
    data.extend(gds_record(RecordType::LibName, DataType::AsciiString, b"AB\0\0"));
    // A FORMAT record, which the parser skips.
    data.extend(i16_record(RecordType::Format, 0));
    data.extend(gds_record(RecordType::Units, DataType::EightByteReal, &[0u8; 16]));
    let mut element = Vec::new();
    element.extend(no_data_record(RecordType::Boundary));
    // A LAYER record with a second, ignored value.
    element.extend(gds_record(RecordType::Layer, DataType::TwoByteSignedInt, &[0, 7, 0, 9]));
    element.extend(i16_record(RecordType::Datatype, 0));
    element.extend(xy_record(&[0, 0, 1, 0]));
    element.extend(xy_record(&[1, 1, 0, 0]));
    element.extend(no_data_record(RecordType::Endel));
    data.extend(minimal_structure("TOP", &element));
    data.extend(no_data_record(RecordType::EndLib));

    let events = collect_events(&data).expect("parse failed");
    let mut writer = GdsWriter::new(Vec::new()).with_multi_xy(true);
    for event in &events {
        writer.write_event(event);
    }
    let rewritten = writer.into_inner();
    assert_ne!(rewritten, data);
    let reparsed = collect_events(&rewritten).expect("reparse failed");
    assert_eq!(format!("{reparsed:?}"), format!("{events:?}"));
}

#[test]
fn well_formed_file_from_another_writer_is_rewritten_byte_for_byte() {
    let mut data = Vec::new();
    data.extend(i16_record(RecordType::Header, 600));
    data.extend(gds_record(RecordType::BgnLib, DataType::TwoByteSignedInt, &[0u8; 24]));
    data.extend(string_record(RecordType::LibName, "LIB"));
    // Name fields padded with nulls to a fixed width, as some tools write them.
    data.extend(gds_record(RecordType::Reflibs, DataType::AsciiString, b"REF\0\0\0"));
    data.extend(gds_record(RecordType::Fonts, DataType::AsciiString, b"F0\0\0"));
    data.extend(i16_record(RecordType::Generations, 3));
    data.extend(gds_record(
        RecordType::Units,
        DataType::EightByteReal,
        &[0x3E, 0x41, 0x89, 0x37, 0x4B, 0xC6, 0xA7, 0xEF, 0x39, 0x44, 0xB8, 0x2F, 0xA0, 0x9B, 0x5A, 0x54],
    ));
    let mut inner = Vec::new();
    inner.extend(no_data_record(RecordType::Sref));
    inner.extend(string_record(RecordType::Sname, "CHILD"));
    inner.extend(bitarray_record(RecordType::Strans, 0x8002));
    inner.extend(gds_record(RecordType::Mag, DataType::EightByteReal, &[0x41, 0x20, 0, 0, 0, 0, 0, 0]));
    inner.extend(xy_record(&[100, 200]));
    inner.extend(i16_record(RecordType::Propattr, 7));
    inner.extend(string_record(RecordType::Propvalue, "net"));
    inner.extend(no_data_record(RecordType::Endel));
    inner.extend(no_data_record(RecordType::Boundary));
    inner.extend(i16_record(RecordType::Layer, 1));
    inner.extend(i16_record(RecordType::Datatype, 0));
    inner.extend(xy_record(&[0, 0, 1, 0, 1, 1, 0, 0]));
    inner.extend(no_data_record(RecordType::Endel));
    data.extend(minimal_structure("TOP", &inner));
    data.extend(no_data_record(RecordType::EndLib));

    let events = collect_events(&data).expect("parse failed");
    let GdsEvent::LibraryBegin(lib) = &events[0] else {
        panic!("expected LibraryBegin");
    };
    assert_eq!(lib.reflibs, Some("REF\0\0"));
    assert_eq!(lib.fonts, Some("F0\0"));
    let mut writer = GdsWriter::new(Vec::new()).with_multi_xy(true);
    for event in &events {
        writer.write_event(event);
    }
    assert_eq!(writer.into_inner(), data);
}
