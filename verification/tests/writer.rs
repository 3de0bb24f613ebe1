use gdsii::parser::{
    Aref, Boundary, Element, GdsBox, GdsEvent, GdsParser, LibraryBegin, Node, Path, Property,
    Sref, Strans, StructureBegin, Text, XyCoords,
};
use gdsii::reader::RecordIter;
use gdsii::writer::{write_all, GdsWriter};
use gdsii::{GdsEightByteReal, RecordType, MAX_XY_POINTS_PER_RECORD};

fn raw_real(x: f64) -> GdsEightByteReal {
    GdsEightByteReal::from_f64_bits(x.to_bits()).expect("representable")
}

fn parse_all(data: &[u8]) -> Vec<GdsEvent<'_>> {
    let mut parser = GdsParser::new(data);
    let mut out = Vec::new();
    while let Some(item) = parser.next() {
        out.push(item.expect("parse failed"));
    }
    out
}

fn write_with(events: &[GdsEvent<'_>], multi_xy: bool) -> Vec<u8> {
    let mut writer = GdsWriter::new(Vec::new()).with_multi_xy(multi_xy);
    for event in events {
        writer.write_event(event);
    }
    writer.into_inner()
}

fn record_types(data: &[u8]) -> Vec<RecordType> {
    let mut iter = RecordIter::new(data);
    let mut out = Vec::new();
    while let Some(r) = iter.next() {
        out.push(r.expect("record parse failed").header.record_type());
    }
    out
}

fn library_begin(name: &str) -> GdsEvent<'_> {
    GdsEvent::LibraryBegin(LibraryBegin {
        version: 600,
        timestamps: vec![0; 12],
        lib_name: name,
        db_in_user: raw_real(0.001),
        db_in_meters: raw_real(1e-9),
        reflibs: None,
        fonts: None,
        attrtable: None,
        generations: None,
    })
}

fn structure_begin(name: &str) -> GdsEvent<'_> {
    GdsEvent::StructureBegin(StructureBegin { timestamps: vec![0; 12], name })
}

fn boundary(layer: i16, xy: Vec<i32>) -> GdsEvent<'static> {
    GdsEvent::Element(Element::Boundary(Boundary {
        elflags: None,
        plex: None,
        layer,
        datatype: 0,
        xy: XyCoords::new(xy),
    }))
}

/// A polygon with more vertices than one XY record holds is written as several XY
/// records, reads back as one element, and writes back to the same bytes.
#[test]
fn roundtrip_multi_xy_boundary_is_byte_identical() {
    // Past what a single XY record holds, so a continuation record is required.
    let points = MAX_XY_POINTS_PER_RECORD + 61;
    // Coordinates encode their own index, so a vertex dropped, duplicated or reordered at
    // a record boundary changes the result.
    let coords: Vec<i32> = (0..points)
        .flat_map(|i| {
            let i = i32::try_from(i).expect("point index fits i32");
            [i, -i]
        })
        .collect();

    let events = vec![
        library_begin("MULTIXY"),
        structure_begin("TOP"),
        boundary(1, coords.clone()),
        GdsEvent::StructureEnd,
        GdsEvent::LibraryEnd,
    ];

    let first = write_with(&events, true);

    // The written file really is in the split form.
    let xy_records = record_types(&first).into_iter().filter(|t| *t == RecordType::Xy).count();
    assert_eq!(xy_records, 2, "expected a split XY body");

    // Reading it back yields one element carrying every vertex.
    let reparsed = parse_all(&first);
    let GdsEvent::Element(Element::Boundary(b)) = &reparsed[2] else {
        panic!("expected a Boundary element");
    };
    assert_eq!(b.xy.num_points(), points);
    assert_eq!(b.xy.as_slice(), &coords[..]);

    // And writing that back out reproduces the same bytes.
    let second = write_with(&reparsed, true);
    assert_eq!(second, first, "roundtrip was not byte-identical");
}

fn every_kind_of_event() -> Vec<GdsEvent<'static>> {
    let strans = Strans {
        reflection: true,
        abs_mag: false,
        abs_angle: true,
        mag: Some(raw_real(2.0)),
        angle: Some(raw_real(90.0)),
    };
    vec![
        GdsEvent::LibraryBegin(LibraryBegin {
            version: 7,
            timestamps: vec![2024, 1, 2, 3, 4, 5, 2024, 6, 7, 8, 9, 10],
            lib_name: "ALL",
            db_in_user: raw_real(0.001),
            db_in_meters: raw_real(1e-9),
            reflibs: Some("REFS"),
            fonts: Some("FONT0"),
            attrtable: Some("ATTRS"),
            generations: Some(3),
        }),
        GdsEvent::StructureBegin(StructureBegin { timestamps: vec![1; 12], name: "CELL" }),
        GdsEvent::Element(Element::Boundary(Boundary {
            elflags: Some(2),
            plex: Some(-7),
            layer: 1,
            datatype: 2,
            xy: XyCoords::new(vec![0, 0, 10, 0, 10, 10, 0, 0]),
        })),
        GdsEvent::Property(Property { attr: 1, value: "net" }),
        GdsEvent::Property(Property { attr: 2, value: "odd" }),
        GdsEvent::Element(Element::Path(Path {
            elflags: None,
            plex: None,
            layer: 3,
            datatype: 0,
            pathtype: Some(4),
            width: Some(-50),
            bgn_extn: Some(5),
            end_extn: None,
            xy: XyCoords::new(vec![0, 0, 100, 0]),
        })),
        GdsEvent::Element(Element::Sref(Sref {
            elflags: None,
            plex: None,
            sname: "SUB",
            strans: Some(strans),
            xy: XyCoords::new(vec![5, 5]),
        })),
        GdsEvent::Element(Element::Aref(Aref {
            elflags: None,
            plex: Some(1),
            sname: "SUB",
            strans: None,
            colrow: (3, 2),
            xy: XyCoords::new(vec![0, 0, 30, 0, 0, 20]),
        })),
        GdsEvent::Property(Property { attr: 9, value: "" }),
        GdsEvent::Element(Element::Text(Text {
            elflags: None,
            plex: None,
            layer: 4,
            texttype: 1,
            presentation: Some(5),
            pathtype: None,
            width: Some(10),
            strans: Some(Strans {
                reflection: false,
                abs_mag: true,
                abs_angle: false,
                mag: None,
                angle: None,
            }),
            xy: XyCoords::new(vec![1, 2]),
            string: "hello",
        })),
        GdsEvent::Element(Element::Node(Node {
            elflags: None,
            plex: None,
            layer: 5,
            nodetype: 6,
            xy: XyCoords::new(vec![0, 0, 1, 1]),
        })),
        GdsEvent::Element(Element::Box(GdsBox {
            elflags: None,
            plex: None,
            layer: 6,
            boxtype: 0,
            xy: XyCoords::new(vec![0, 0, 1, 0, 1, 1, 0, 1, 0, 0]),
        })),
        GdsEvent::StructureEnd,
        GdsEvent::StructureBegin(StructureBegin { timestamps: vec![2; 12], name: "EMPTY" }),
        GdsEvent::StructureEnd,
        GdsEvent::LibraryEnd,
    ]
}

#[test]
fn written_events_parse_back_unchanged() {
    let events = every_kind_of_event();
    let bytes = write_with(&events, false);
    let reparsed = parse_all(&bytes);
    assert_eq!(format!("{reparsed:?}"), format!("{events:?}"));
}

#[test]
fn rewriting_a_written_file_is_byte_exact() {
    let events = every_kind_of_event();
    let bytes = write_with(&events, false);
    let reparsed = parse_all(&bytes);
    assert_eq!(write_with(&reparsed, false), bytes);
}

#[test]
fn endel_follows_the_properties() {
    let events = vec![
        library_begin("L"),
        structure_begin("S"),
        boundary(1, vec![0, 0]),
        GdsEvent::Property(Property { attr: 1, value: "a" }),
        boundary(2, vec![1, 1]),
        GdsEvent::StructureEnd,
        GdsEvent::LibraryEnd,
    ];
    let types = record_types(&write_with(&events, false));
    assert_eq!(
        types,
        vec![
            RecordType::Header,
            RecordType::BgnLib,
            RecordType::LibName,
            RecordType::Units,
            RecordType::BgnStr,
            RecordType::StrName,
            RecordType::Boundary,
            RecordType::Layer,
            RecordType::Datatype,
            RecordType::Xy,
            RecordType::Propattr,
            RecordType::Propvalue,
            RecordType::Endel,
            RecordType::Boundary,
            RecordType::Layer,
            RecordType::Datatype,
            RecordType::Xy,
            RecordType::Endel,
            RecordType::EndStr,
            RecordType::EndLib,
        ]
    );
}

#[test]
fn write_all_matches_writing_each_event() {
    let events = every_kind_of_event();
    let prefix = vec![0xAA, 0xBB];
    let all = write_all(prefix.clone(), &events);
    let mut expected = prefix;
    expected.extend(write_with(&events, false));
    assert_eq!(all, expected);
}

#[test]
fn exact_bytes_of_small_records() {
    let events = vec![
        library_begin("AB"),
        structure_begin("ODD"),
        GdsEvent::Element(Element::Path(Path {
            elflags: None,
            plex: None,
            layer: -2,
            datatype: 0x0102,
            pathtype: None,
            width: Some(0x0A0B_0C0D),
            bgn_extn: None,
            end_extn: None,
            xy: XyCoords::new(vec![-1]),
        })),
        GdsEvent::StructureEnd,
        GdsEvent::LibraryEnd,
    ];
    let bytes = write_with(&events, false);
    let mut expected: Vec<u8> = vec![0x00, 0x06, 0x00, 0x02, 0x02, 0x58];
    expected.extend([0x00, 0x1C, 0x01, 0x02]);
    expected.extend([0u8; 24]);
    expected.extend([0x00, 0x06, 0x02, 0x06, b'A', b'B']);
    expected.extend([0x00, 0x14, 0x03, 0x05]);
    expected.extend(raw_real(0.001).raw());
    expected.extend(raw_real(1e-9).raw());
    expected.extend([0x00, 0x1C, 0x05, 0x02]);
    expected.extend([0u8; 24]);
    expected.extend([0x00, 0x08, 0x06, 0x06, b'O', b'D', b'D', 0x00]);
    expected.extend([0x00, 0x04, 0x09, 0x00]);
    expected.extend([0x00, 0x06, 0x0D, 0x02, 0xFF, 0xFE]);
    expected.extend([0x00, 0x06, 0x0E, 0x02, 0x01, 0x02]);
    expected.extend([0x00, 0x08, 0x0F, 0x03, 0x0A, 0x0B, 0x0C, 0x0D]);
    expected.extend([0x00, 0x08, 0x10, 0x03, 0xFF, 0xFF, 0xFF, 0xFF]);
    expected.extend([0x00, 0x04, 0x11, 0x00]);
    expected.extend([0x00, 0x04, 0x07, 0x00]);
    expected.extend([0x00, 0x04, 0x04, 0x00]);
    assert_eq!(bytes, expected);
}

#[test]
fn without_multi_xy_one_record_holds_all() {
    let coords: Vec<i32> = (0..2 * MAX_XY_POINTS_PER_RECORD as i32 + 2).collect();
    let events = vec![
        library_begin("L"),
        structure_begin("S"),
        boundary(1, coords),
        GdsEvent::StructureEnd,
        GdsEvent::LibraryEnd,
    ];
    let split = write_with(&events, true);
    let xy_split = record_types(&split).into_iter().filter(|t| *t == RecordType::Xy).count();
    assert_eq!(xy_split, 2);
    let mut exact = Vec::new();
    let small: Vec<i32> = (0..2 * MAX_XY_POINTS_PER_RECORD as i32).collect();
    let small_events = vec![
        library_begin("L"),
        structure_begin("S"),
        boundary(1, small),
        GdsEvent::StructureEnd,
        GdsEvent::LibraryEnd,
    ];
    exact.extend(write_with(&small_events, true));
    let xy_exact = record_types(&exact).into_iter().filter(|t| *t == RecordType::Xy).count();
    assert_eq!(xy_exact, 1);
    assert_eq!(write_with(&small_events, false), exact);
}

#[test]
fn strans_flags_round_trip() {
    let events = every_kind_of_event();
    let bytes = write_with(&events, false);
    let reparsed = parse_all(&bytes);
    let GdsEvent::Element(Element::Sref(s)) = &reparsed[6] else {
        panic!("expected Sref");
    };
    let st = s.strans.expect("strans");
    assert!(st.reflection && !st.abs_mag && st.abs_angle);
    assert_eq!(st.mag, Some(raw_real(2.0)));
    assert_eq!(st.angle, Some(raw_real(90.0)));
}
