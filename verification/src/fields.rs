//! Which record carries which field, and in which order the records come: for each event,
//! the body of the first record of each record type that the writer writes for it, and the
//! place of each record type in the GDSII grammar.
use crate::events::{ElementView, EventView, StransView};
use crate::reader::BodyView;
use crate::types::RecordType;
use crate::writer::{
    element_records, elflags_plex_records, endel_records, event_records, one, opt_i16, opt_i32, opt_real,
    opt_str, opt_u16, strans_flags, strans_records, xy_chunk, xy_records, OutRecord,
};
use vstd::prelude::*;

verus! {

/// The body of the first record of type `t` in `rs`, if there is one.
pub open spec fn first_body(rs: Seq<OutRecord>, t: RecordType) -> Option<BodyView>
    decreases rs.len(),
{
    if rs.len() == 0 {
        None
    } else if rs[0].record_type == t {
        Some(rs[0].body)
    } else {
        first_body(rs.drop_first(), t)
    }
}

/// A two-byte integer body holding the value, if there is one.
pub open spec fn i16_body(o: Option<i16>) -> Option<BodyView> {
    match o {
        Some(v) => Some(BodyView::TwoByteSignedInt(seq![v])),
        None => None,
    }
}

/// A four-byte integer body holding the value, if there is one.
pub open spec fn i32_body(o: Option<i32>) -> Option<BodyView> {
    match o {
        Some(v) => Some(BodyView::FourByteSignedInt(seq![v])),
        None => None,
    }
}

/// A bit array body holding the word, if there is one.
pub open spec fn u16_body(o: Option<u16>) -> Option<BodyView> {
    match o {
        Some(v) => Some(BodyView::BitArray(seq![v])),
        None => None,
    }
}

/// A string body holding the bytes, if there are any.
pub open spec fn str_body(o: Option<Seq<u8>>) -> Option<BodyView> {
    match o {
        Some(s) => Some(BodyView::AsciiString(s)),
        None => None,
    }
}

/// An eight-byte real body holding the real, if there is one.
pub open spec fn real_body(o: Option<Seq<u8>>) -> Option<BodyView> {
    match o {
        Some(r) => Some(BodyView::EightByteReal(seq![r])),
        None => None,
    }
}

/// The coordinates that the first XY record of a list holds.
pub open spec fn first_xy(xy: Seq<i32>, split: bool) -> Seq<i32> {
    if split && xy.len() > xy_chunk() {
        xy.take(xy_chunk() as int)
    } else {
        xy
    }
}

proof fn lemma_first_body_concat_rec(a: Seq<OutRecord>, b: Seq<OutRecord>, t: RecordType)
    ensures
        first_body(a + b, t) == match first_body(a, t) {
            Some(x) => Some(x),
            None => first_body(b, t),
        },
    decreases a.len(),
{
    if a.len() == 0 {
        assert(a + b =~= b);
    } else {
        assert((a + b).drop_first() =~= a.drop_first() + b);
        lemma_first_body_concat_rec(a.drop_first(), b, t);
    }
}

/// The first record of a type in two runs is the first run's, or the second run's where
/// the first has none.
pub broadcast proof fn lemma_first_body_concat(a: Seq<OutRecord>, b: Seq<OutRecord>, t: RecordType)
    ensures
        #[trigger] first_body(a + b, t) == match first_body(a, t) {
            Some(x) => Some(x),
            None => first_body(b, t),
        },
{
    lemma_first_body_concat_rec(a, b, t);
}

/// One record.
pub broadcast proof fn lemma_first_body_one(t: RecordType, b: BodyView, u: RecordType)
    ensures
        #[trigger] first_body(one(t, b), u) == if t == u {
            Some(b)
        } else {
            None
        },
{
    assert(one(t, b).drop_first() =~= Seq::<OutRecord>::empty());
    assert(first_body(Seq::<OutRecord>::empty(), u) is None);
}

/// No records.
pub broadcast proof fn lemma_first_body_empty(u: RecordType)
    ensures
        #[trigger] first_body(Seq::<OutRecord>::empty(), u) is None,
{
}

/// An optional two-byte integer record.
pub broadcast proof fn lemma_first_body_opt_i16(t: RecordType, o: Option<i16>, u: RecordType)
    ensures
        #[trigger] first_body(opt_i16(t, o), u) == if t == u {
            i16_body(o)
        } else {
            None
        },
{
    if o is Some {
        lemma_first_body_one(t, BodyView::TwoByteSignedInt(seq![o->0]), u);
    }
}

/// An optional four-byte integer record.
pub broadcast proof fn lemma_first_body_opt_i32(t: RecordType, o: Option<i32>, u: RecordType)
    ensures
        #[trigger] first_body(opt_i32(t, o), u) == if t == u {
            i32_body(o)
        } else {
            None
        },
{
    if o is Some {
        lemma_first_body_one(t, BodyView::FourByteSignedInt(seq![o->0]), u);
    }
}

/// An optional bit array record.
pub broadcast proof fn lemma_first_body_opt_u16(t: RecordType, o: Option<u16>, u: RecordType)
    ensures
        #[trigger] first_body(opt_u16(t, o), u) == if t == u {
            u16_body(o)
        } else {
            None
        },
{
    if o is Some {
        lemma_first_body_one(t, BodyView::BitArray(seq![o->0]), u);
    }
}

/// An optional string record.
pub broadcast proof fn lemma_first_body_opt_str(t: RecordType, o: Option<Seq<u8>>, u: RecordType)
    ensures
        #[trigger] first_body(opt_str(t, o), u) == if t == u {
            str_body(o)
        } else {
            None
        },
{
    if o is Some {
        lemma_first_body_one(t, BodyView::AsciiString(o->0), u);
    }
}

/// An optional eight-byte real record.
pub broadcast proof fn lemma_first_body_opt_real(t: RecordType, o: Option<Seq<u8>>, u: RecordType)
    ensures
        #[trigger] first_body(opt_real(t, o), u) == if t == u {
            real_body(o)
        } else {
            None
        },
{
    if o is Some {
        lemma_first_body_one(t, BodyView::EightByteReal(seq![o->0]), u);
    }
}

proof fn lemma_first_body_xy_rec(xy: Seq<i32>, split: bool, u: RecordType)
    ensures
        first_body(xy_records(xy, split), u) == if u == RecordType::Xy {
            Some(BodyView::FourByteSignedInt(first_xy(xy, split)))
        } else {
            None
        },
    decreases xy.len(),
{
    broadcast use lemma_first_body_concat, lemma_first_body_one;

    if split && xy.len() > xy_chunk() {
        lemma_first_body_xy_rec(xy.skip(xy_chunk() as int), split, u);
    }
}

/// The XY records of a coordinate list: the first holds the list, or its first full record
/// where the list is split.
pub broadcast proof fn lemma_first_body_xy(xy: Seq<i32>, split: bool, u: RecordType)
    ensures
        #[trigger] first_body(xy_records(xy, split), u) == if u == RecordType::Xy {
            Some(BodyView::FourByteSignedInt(first_xy(xy, split)))
        } else {
            None
        },
{
    lemma_first_body_xy_rec(xy, split, u);
}

/// The STRANS word of an optional transformation.
pub open spec fn strans_body(o: Option<StransView>) -> Option<BodyView> {
    match o {
        Some(s) => Some(BodyView::BitArray(seq![strans_flags(s)])),
        None => None,
    }
}

/// The MAG of an optional transformation.
pub open spec fn mag_body(o: Option<StransView>) -> Option<BodyView> {
    match o {
        Some(s) => real_body(s.mag),
        None => None,
    }
}

/// The ANGLE of an optional transformation.
pub open spec fn angle_body(o: Option<StransView>) -> Option<BodyView> {
    match o {
        Some(s) => real_body(s.angle),
        None => None,
    }
}

/// The records of an optional transformation: its STRANS word, then its MAG and ANGLE.
pub broadcast proof fn lemma_first_body_strans(o: Option<StransView>, u: RecordType)
    ensures
        #[trigger] first_body(strans_records(o), u) == if u == RecordType::Strans {
            strans_body(o)
        } else if u == RecordType::Mag {
            mag_body(o)
        } else if u == RecordType::Angle {
            angle_body(o)
        } else {
            None
        },
{
    broadcast use lemma_first_body_concat, lemma_first_body_one, lemma_first_body_opt_real,
        lemma_first_body_empty;

}

/// The ELFLAGS and PLEX records of an element.
pub broadcast proof fn lemma_first_body_elflags_plex(e: Option<u16>, p: Option<i32>, u: RecordType)
    ensures
        #[trigger] first_body(elflags_plex_records(e, p), u) == if u == RecordType::Elflags {
            u16_body(e)
        } else if u == RecordType::Plex {
            i32_body(p)
        } else {
            None
        },
{
    broadcast use lemma_first_body_concat, lemma_first_body_opt_u16, lemma_first_body_opt_i32;

}

/// Each field of an element is written in the record of its own type: the element opens
/// with its type's record, and the first LAYER, DATATYPE, BOXTYPE, NODETYPE, TEXTTYPE,
/// PATHTYPE, WIDTH, BGNEXTN, ENDEXTN, SNAME, STRANS, MAG, ANGLE, COLROW, PRESENTATION, XY
/// and STRING records, and the ELFLAGS and PLEX records, hold exactly the element's fields
/// of those names (an optional field's record is there exactly when the field is).
pub proof fn lemma_element_fields(el: ElementView, split: bool)
    ensures
        ({
            let r = element_records(el, split);
            &&& r.len() > 0
            &&& r[0].body == BodyView::NoData
            &&& match el {
                ElementView::Boundary { elflags, plex, layer, datatype, xy } => {
                    &&& r[0].record_type == RecordType::Boundary
                    &&& first_body(r, RecordType::Elflags) == u16_body(elflags)
                    &&& first_body(r, RecordType::Plex) == i32_body(plex)
                    &&& first_body(r, RecordType::Layer) == i16_body(Some(layer))
                    &&& first_body(r, RecordType::Datatype) == i16_body(Some(datatype))
                    &&& first_body(r, RecordType::Xy) == Some(
                        BodyView::FourByteSignedInt(first_xy(xy, split)),
                    )
                },
                ElementView::Path {
                    elflags,
                    plex,
                    layer,
                    datatype,
                    pathtype,
                    width,
                    bgn_extn,
                    end_extn,
                    xy,
                } => {
                    &&& r[0].record_type == RecordType::Path
                    &&& first_body(r, RecordType::Elflags) == u16_body(elflags)
                    &&& first_body(r, RecordType::Plex) == i32_body(plex)
                    &&& first_body(r, RecordType::Layer) == i16_body(Some(layer))
                    &&& first_body(r, RecordType::Datatype) == i16_body(Some(datatype))
                    &&& first_body(r, RecordType::Pathtype) == i16_body(pathtype)
                    &&& first_body(r, RecordType::Width) == i32_body(width)
                    &&& first_body(r, RecordType::BgnExtn) == i32_body(bgn_extn)
                    &&& first_body(r, RecordType::EndExtn) == i32_body(end_extn)
                    &&& first_body(r, RecordType::Xy) == Some(
                        BodyView::FourByteSignedInt(first_xy(xy, split)),
                    )
                },
                ElementView::Sref { elflags, plex, sname, strans, xy } => {
                    &&& r[0].record_type == RecordType::Sref
                    &&& first_body(r, RecordType::Elflags) == u16_body(elflags)
                    &&& first_body(r, RecordType::Plex) == i32_body(plex)
                    &&& first_body(r, RecordType::Sname) == str_body(Some(sname))
                    &&& first_body(r, RecordType::Strans) == strans_body(strans)
                    &&& first_body(r, RecordType::Mag) == mag_body(strans)
                    &&& first_body(r, RecordType::Angle) == angle_body(strans)
                    &&& first_body(r, RecordType::Xy) == Some(
                        BodyView::FourByteSignedInt(first_xy(xy, split)),
                    )
                },
                ElementView::Aref { elflags, plex, sname, strans, colrow, xy } => {
                    &&& r[0].record_type == RecordType::Aref
                    &&& first_body(r, RecordType::Elflags) == u16_body(elflags)
                    &&& first_body(r, RecordType::Plex) == i32_body(plex)
                    &&& first_body(r, RecordType::Sname) == str_body(Some(sname))
                    &&& first_body(r, RecordType::Strans) == strans_body(strans)
                    &&& first_body(r, RecordType::Mag) == mag_body(strans)
                    &&& first_body(r, RecordType::Angle) == angle_body(strans)
                    &&& first_body(r, RecordType::Colrow) == Some(
                        BodyView::TwoByteSignedInt(seq![colrow.0, colrow.1]),
                    )
                    &&& first_body(r, RecordType::Xy) == Some(
                        BodyView::FourByteSignedInt(first_xy(xy, split)),
                    )
                },
                ElementView::Text {
                    elflags,
                    plex,
                    layer,
                    texttype,
                    presentation,
                    pathtype,
                    width,
                    strans,
                    xy,
                    string,
                } => {
                    &&& r[0].record_type == RecordType::Text
                    &&& first_body(r, RecordType::Elflags) == u16_body(elflags)
                    &&& first_body(r, RecordType::Plex) == i32_body(plex)
                    &&& first_body(r, RecordType::Layer) == i16_body(Some(layer))
                    &&& first_body(r, RecordType::TextType) == i16_body(Some(texttype))
                    &&& first_body(r, RecordType::Presentation) == u16_body(presentation)
                    &&& first_body(r, RecordType::Pathtype) == i16_body(pathtype)
                    &&& first_body(r, RecordType::Width) == i32_body(width)
                    &&& first_body(r, RecordType::Strans) == strans_body(strans)
                    &&& first_body(r, RecordType::Mag) == mag_body(strans)
                    &&& first_body(r, RecordType::Angle) == angle_body(strans)
                    &&& first_body(r, RecordType::Xy) == Some(
                        BodyView::FourByteSignedInt(first_xy(xy, split)),
                    )
                    &&& first_body(r, RecordType::String) == str_body(Some(string))
                },
                ElementView::Node { elflags, plex, layer, nodetype, xy } => {
                    &&& r[0].record_type == RecordType::Node
                    &&& first_body(r, RecordType::Elflags) == u16_body(elflags)
                    &&& first_body(r, RecordType::Plex) == i32_body(plex)
                    &&& first_body(r, RecordType::Layer) == i16_body(Some(layer))
                    &&& first_body(r, RecordType::Nodetype) == i16_body(Some(nodetype))
                    &&& first_body(r, RecordType::Xy) == Some(
                        BodyView::FourByteSignedInt(first_xy(xy, split)),
                    )
                },
                ElementView::Box { elflags, plex, layer, boxtype, xy } => {
                    &&& r[0].record_type == RecordType::Box
                    &&& first_body(r, RecordType::Elflags) == u16_body(elflags)
                    &&& first_body(r, RecordType::Plex) == i32_body(plex)
                    &&& first_body(r, RecordType::Layer) == i16_body(Some(layer))
                    &&& first_body(r, RecordType::BoxType) == i16_body(Some(boxtype))
                    &&& first_body(r, RecordType::Xy) == Some(
                        BodyView::FourByteSignedInt(first_xy(xy, split)),
                    )
                },
            }
        }),
{
    broadcast use lemma_first_body_concat, lemma_first_body_one, lemma_first_body_opt_i16,
        lemma_first_body_opt_i32, lemma_first_body_opt_u16, lemma_first_body_xy,
        lemma_first_body_strans, lemma_first_body_elflags_plex;

}

/// Each field of an event is written in the record of its own type: HEADER holds the
/// version, BGNLIB and BGNSTR the timestamps, LIBNAME and STRNAME the names, REFLIBS,
/// FONTS, ATTRTABLE and GENERATIONS the library options, UNITS the two units in order,
/// PROPATTR and PROPVALUE the property; an owed ENDEL comes first where the event closes
/// the open element, and an element's fields are placed as for the element alone.
pub proof fn lemma_event_fields(e: EventView, owed: bool, split: bool)
    ensures
        ({
            let r = event_records(e, owed, split);
            match e {
                EventView::LibraryBegin {
                    version,
                    timestamps,
                    lib_name,
                    db_in_user,
                    db_in_meters,
                    reflibs,
                    fonts,
                    attrtable,
                    generations,
                } => {
                    &&& r.len() > 0 && r[0].record_type == RecordType::Header
                    &&& first_body(r, RecordType::Header) == i16_body(Some(version))
                    &&& first_body(r, RecordType::BgnLib) == Some(
                        BodyView::TwoByteSignedInt(timestamps),
                    )
                    &&& first_body(r, RecordType::LibName) == str_body(Some(lib_name))
                    &&& first_body(r, RecordType::Reflibs) == str_body(reflibs)
                    &&& first_body(r, RecordType::Fonts) == str_body(fonts)
                    &&& first_body(r, RecordType::Attrtable) == str_body(attrtable)
                    &&& first_body(r, RecordType::Generations) == i16_body(generations)
                    &&& first_body(r, RecordType::Units) == Some(
                        BodyView::EightByteReal(seq![db_in_user, db_in_meters]),
                    )
                    &&& first_body(r, RecordType::Endel) is None
                },
                EventView::StructureBegin { timestamps, name } => {
                    &&& r.len() > 0 && r[0].record_type == (if owed {
                        RecordType::Endel
                    } else {
                        RecordType::BgnStr
                    })
                    &&& first_body(r, RecordType::Endel) == (if owed {
                        Some(BodyView::NoData)
                    } else {
                        None
                    })
                    &&& first_body(r, RecordType::BgnStr) == Some(
                        BodyView::TwoByteSignedInt(timestamps),
                    )
                    &&& first_body(r, RecordType::StrName) == str_body(Some(name))
                },
                EventView::Element(el) => {
                    &&& r.len() > 0 && r[0].record_type == (if owed {
                        RecordType::Endel
                    } else {
                        element_records(el, split)[0].record_type
                    })
                    &&& first_body(r, RecordType::Endel) == (if owed {
                        Some(BodyView::NoData)
                    } else {
                        None
                    })
                    &&& forall|t: RecordType|
                        t != RecordType::Endel ==> #[trigger] first_body(r, t) == first_body(
                            element_records(el, split),
                            t,
                        )
                },
                EventView::Property { attr, value } => {
                    &&& r.len() > 0 && r[0].record_type == RecordType::Propattr
                    &&& first_body(r, RecordType::Propattr) == i16_body(Some(attr))
                    &&& first_body(r, RecordType::Propvalue) == str_body(Some(value))
                    &&& first_body(r, RecordType::Endel) is None
                },
                EventView::StructureEnd => {
                    &&& r.len() > 0 && r[0].record_type == (if owed {
                        RecordType::Endel
                    } else {
                        RecordType::EndStr
                    })
                    &&& first_body(r, RecordType::Endel) == (if owed {
                        Some(BodyView::NoData)
                    } else {
                        None
                    })
                    &&& first_body(r, RecordType::EndStr) == Some(BodyView::NoData)
                },
                EventView::LibraryEnd => {
                    &&& r.len() > 0 && r[0].record_type == (if owed {
                        RecordType::Endel
                    } else {
                        RecordType::EndLib
                    })
                    &&& first_body(r, RecordType::Endel) == (if owed {
                        Some(BodyView::NoData)
                    } else {
                        None
                    })
                    &&& first_body(r, RecordType::EndLib) == Some(BodyView::NoData)
                },
            }
        }),
{
    broadcast use lemma_first_body_concat, lemma_first_body_one, lemma_first_body_opt_i16,
        lemma_first_body_opt_str, lemma_first_body_empty;

    match e {
        EventView::Element(el) => {
            lemma_element_fields(el, split);
            lemma_element_has_no_endel(el, split);
        },
        _ => {},
    }
}

/// An element's own records hold no ENDEL.
#[verifier::spinoff_prover]
#[verifier::rlimit(50)]
proof fn lemma_element_has_no_endel(el: ElementView, split: bool)
    ensures
        first_body(element_records(el, split), RecordType::Endel) is None,
{
    broadcast use lemma_first_body_concat, lemma_first_body_one, lemma_first_body_opt_i16,
        lemma_first_body_opt_i32, lemma_first_body_opt_u16, lemma_first_body_xy,
        lemma_first_body_strans, lemma_first_body_elflags_plex;

}

/// Place of a record type among the records of one event, as the GDSII grammar orders
/// them. An owed ENDEL comes first. The library's opening records: HEADER, BGNLIB, LIBNAME,
/// REFLIBS, FONTS, ATTRTABLE, GENERATIONS, UNITS. A structure's: BGNSTR, STRNAME. A
/// property's: PROPATTR, PROPVALUE. An element's: the opening record (BOUNDARY, PATH, SREF,
/// AREF, TEXT, NODE, BOX), ELFLAGS, PLEX, LAYER or SNAME, the type number (DATATYPE,
/// TEXTTYPE, NODETYPE, BOXTYPE), PRESENTATION, PATHTYPE, WIDTH, BGNEXTN, ENDEXTN, STRANS,
/// MAG, ANGLE, COLROW, XY, STRING. No event holds types of two of these lists.
pub open spec fn grammar_rank(t: RecordType) -> int {
    match t {
        RecordType::Endel => -1,
        RecordType::Header | RecordType::BgnStr | RecordType::Propattr | RecordType::EndStr
        | RecordType::EndLib => 0,
        RecordType::BgnLib | RecordType::StrName | RecordType::Propvalue => 1,
        RecordType::LibName => 2,
        RecordType::Reflibs => 3,
        RecordType::Fonts => 4,
        RecordType::Attrtable => 5,
        RecordType::Generations => 6,
        RecordType::Units => 7,
        RecordType::Boundary | RecordType::Path | RecordType::Sref | RecordType::Aref
        | RecordType::Text | RecordType::Node | RecordType::Box => 0,
        RecordType::Elflags => 1,
        RecordType::Plex => 2,
        RecordType::Layer | RecordType::Sname => 3,
        RecordType::Datatype | RecordType::TextType | RecordType::Nodetype
        | RecordType::BoxType => 4,
        RecordType::Presentation => 5,
        RecordType::Pathtype => 6,
        RecordType::Width => 7,
        RecordType::BgnExtn => 8,
        RecordType::EndExtn => 9,
        RecordType::Strans => 10,
        RecordType::Mag => 11,
        RecordType::Angle => 12,
        RecordType::Colrow => 13,
        RecordType::Xy => 14,
        RecordType::String => 15,
        _ => 16,
    }
}

/// A record of type `a` may come before one of type `b`: `a` has the lower place, or both
/// are XY records.
pub open spec fn may_precede(a: RecordType, b: RecordType) -> bool {
    grammar_rank(a) < grammar_rank(b) || (a == RecordType::Xy && b == RecordType::Xy)
}

/// Records in grammar order: every record may come before each record after it.
pub open spec fn in_grammar_order(rs: Seq<OutRecord>) -> bool {
    forall|i: int, j: int|
        #![trigger rs[i], rs[j]]
        0 <= i < j < rs.len() ==> may_precede(rs[i].record_type, rs[j].record_type)
}

/// Records in grammar order whose places lie in `lo..=hi`.
spec fn ordered_within(rs: Seq<OutRecord>, lo: int, hi: int) -> bool {
    &&& in_grammar_order(rs)
    &&& forall|i: int| 0 <= i < rs.len() ==> lo <= #[trigger] grammar_rank(rs[i].record_type) <= hi
}

proof fn lemma_order_concat(a: Seq<OutRecord>, b: Seq<OutRecord>, lo: int, m: int, n: int, hi: int)
    requires
        ordered_within(a, lo, m),
        ordered_within(b, n, hi),
        lo <= m < n <= hi,
    ensures
        ordered_within(a + b, lo, hi),
{
    let c = a + b;
    assert forall|i: int, j: int| 0 <= i < j < c.len() implies may_precede(
        c[i].record_type,
        c[j].record_type,
    ) by {
        if j < a.len() {
            assert(c[i] == a[i] && c[j] == a[j]);
        } else if i >= a.len() {
            assert(c[i] == b[i - a.len()] && c[j] == b[j - a.len()]);
        } else {
            assert(c[i] == a[i] && c[j] == b[j - a.len()]);
            assert(grammar_rank(a[i].record_type) <= m);
            assert(n <= grammar_rank(b[j - a.len()].record_type));
        }
    }
    assert forall|i: int| 0 <= i < c.len() implies lo <= #[trigger] grammar_rank(
        c[i].record_type,
    ) <= hi by {
        if i < a.len() {
            assert(c[i] == a[i]);
            assert(lo <= grammar_rank(a[i].record_type) <= m);
        } else {
            assert(c[i] == b[i - a.len()]);
            assert(n <= grammar_rank(b[i - a.len()].record_type) <= hi);
        }
    }
}

/// A run of records of one type, at most one of them unless they are XY records.
proof fn lemma_order_run(rs: Seq<OutRecord>, t: RecordType)
    requires
        forall|i: int| 0 <= i < rs.len() ==> #[trigger] rs[i].record_type == t,
        rs.len() <= 1 || t == RecordType::Xy,
    ensures
        ordered_within(rs, grammar_rank(t), grammar_rank(t)),
{
    assert forall|i: int, j: int| 0 <= i < j < rs.len() implies may_precede(
        rs[i].record_type,
        rs[j].record_type,
    ) by {
        assert(rs[i].record_type == t && rs[j].record_type == t);
    }
}

proof fn lemma_xy_records_are_xy(xy: Seq<i32>, split: bool)
    ensures
        forall|i: int|
            0 <= i < xy_records(xy, split).len() ==> #[trigger] xy_records(xy, split)[i].record_type
                == RecordType::Xy,
    decreases xy.len(),
{
    if split && xy.len() > xy_chunk() {
        let rest = xy.skip(xy_chunk() as int);
        lemma_xy_records_are_xy(rest, split);
        let a = one(RecordType::Xy, BodyView::FourByteSignedInt(xy.take(xy_chunk() as int)));
        let b = xy_records(rest, split);
        assert forall|i: int| 0 <= i < (a + b).len() implies #[trigger] (a + b)[i].record_type
            == RecordType::Xy by {
            if i >= 1 {
                assert((a + b)[i] == b[i - 1]);
            }
        }
    }
}

proof fn lemma_order_one(t: RecordType, b: BodyView)
    ensures
        ordered_within(one(t, b), grammar_rank(t), grammar_rank(t)),
{
    lemma_order_run(one(t, b), t);
}

proof fn lemma_order_xy(xy: Seq<i32>, split: bool)
    ensures
        ordered_within(xy_records(xy, split), 14, 14),
{
    lemma_xy_records_are_xy(xy, split);
    lemma_order_run(xy_records(xy, split), RecordType::Xy);
}

proof fn lemma_order_opt_i16(t: RecordType, o: Option<i16>)
    ensures
        ordered_within(opt_i16(t, o), grammar_rank(t), grammar_rank(t)),
{
    lemma_order_run(opt_i16(t, o), t);
}

proof fn lemma_order_opt_i32(t: RecordType, o: Option<i32>)
    ensures
        ordered_within(opt_i32(t, o), grammar_rank(t), grammar_rank(t)),
{
    lemma_order_run(opt_i32(t, o), t);
}

proof fn lemma_order_opt_u16(t: RecordType, o: Option<u16>)
    ensures
        ordered_within(opt_u16(t, o), grammar_rank(t), grammar_rank(t)),
{
    lemma_order_run(opt_u16(t, o), t);
}

proof fn lemma_order_opt_real(t: RecordType, o: Option<Seq<u8>>)
    ensures
        ordered_within(opt_real(t, o), grammar_rank(t), grammar_rank(t)),
{
    lemma_order_run(opt_real(t, o), t);
}

proof fn lemma_order_elflags_plex(e: Option<u16>, p: Option<i32>)
    ensures
        ordered_within(elflags_plex_records(e, p), 1, 2),
{
    lemma_order_opt_u16(RecordType::Elflags, e);
    lemma_order_opt_i32(RecordType::Plex, p);
    lemma_order_concat(opt_u16(RecordType::Elflags, e), opt_i32(RecordType::Plex, p), 1, 1, 2, 2);
}

proof fn lemma_order_strans(o: Option<StransView>)
    ensures
        ordered_within(strans_records(o), 10, 12),
{
    match o {
        Some(s) => {
            let a = one(RecordType::Strans, BodyView::BitArray(seq![strans_flags(s)]));
            let m = opt_real(RecordType::Mag, s.mag);
            let g = opt_real(RecordType::Angle, s.angle);
            lemma_order_one(RecordType::Strans, BodyView::BitArray(seq![strans_flags(s)]));
            lemma_order_opt_real(RecordType::Mag, s.mag);
            lemma_order_opt_real(RecordType::Angle, s.angle);
            lemma_order_concat(a, m, 10, 10, 11, 11);
            lemma_order_concat(a + m, g, 10, 11, 12, 12);
        },
        None => {},
    }
}

proof fn lemma_order_widen(rs: Seq<OutRecord>, lo: int, hi: int, hi2: int)
    requires
        ordered_within(rs, lo, hi),
        hi <= hi2,
    ensures
        ordered_within(rs, lo, hi2),
{
}

proof fn lemma_order_opt_str(t: RecordType, o: Option<Seq<u8>>)
    ensures
        ordered_within(opt_str(t, o), grammar_rank(t), grammar_rank(t)),
{
    lemma_order_run(opt_str(t, o), t);
}

proof fn lemma_order_endel(owed: bool)
    ensures
        ordered_within(endel_records(owed), -1, -1),
{
    lemma_order_run(endel_records(owed), RecordType::Endel);
}

/// The records of an element come in the order of the GDSII grammar: the opening record,
/// ELFLAGS, PLEX, LAYER or SNAME, the type number (DATATYPE, TEXTTYPE, NODETYPE, BOXTYPE),
/// PRESENTATION, PATHTYPE, WIDTH, BGNEXTN, ENDEXTN, STRANS, MAG, ANGLE, COLROW, the XY
/// records, STRING; no type but XY comes twice.
pub proof fn lemma_element_order(el: ElementView, split: bool)
    ensures
        in_grammar_order(element_records(el, split)),
{
    lemma_element_order_within(el, split);
}

/// The records of each event come in the order of the GDSII grammar (see `grammar_rank`):
/// an owed ENDEL first, then the event's own records in order, no type but XY twice.
pub proof fn lemma_event_order(e: EventView, owed: bool, split: bool)
    ensures
        in_grammar_order(event_records(e, owed, split)),
{
    lemma_order_endel(owed);
    match e {
        EventView::LibraryBegin {
            version,
            timestamps,
            lib_name,
            db_in_user,
            db_in_meters,
            reflibs,
            fonts,
            attrtable,
            generations,
        } => {
            let p0 = one(RecordType::Header, BodyView::TwoByteSignedInt(seq![version]));
            let p1 = one(RecordType::BgnLib, BodyView::TwoByteSignedInt(timestamps));
            let p2 = one(RecordType::LibName, BodyView::AsciiString(lib_name));
            let p3 = opt_str(RecordType::Reflibs, reflibs);
            let p4 = opt_str(RecordType::Fonts, fonts);
            let p5 = opt_str(RecordType::Attrtable, attrtable);
            let p6 = opt_i16(RecordType::Generations, generations);
            let p7 = one(RecordType::Units, BodyView::EightByteReal(seq![db_in_user, db_in_meters]));
            lemma_order_one(RecordType::Header, BodyView::TwoByteSignedInt(seq![version]));
            lemma_order_one(RecordType::BgnLib, BodyView::TwoByteSignedInt(timestamps));
            lemma_order_one(RecordType::LibName, BodyView::AsciiString(lib_name));
            lemma_order_opt_str(RecordType::Reflibs, reflibs);
            lemma_order_opt_str(RecordType::Fonts, fonts);
            lemma_order_opt_str(RecordType::Attrtable, attrtable);
            lemma_order_opt_i16(RecordType::Generations, generations);
            lemma_order_one(
                RecordType::Units,
                BodyView::EightByteReal(seq![db_in_user, db_in_meters]),
            );
            lemma_order_concat(p0, p1, 0, 0, 1, 1);
            lemma_order_concat(p0 + p1, p2, 0, 1, 2, 2);
            lemma_order_concat(p0 + p1 + p2, p3, 0, 2, 3, 3);
            lemma_order_concat(p0 + p1 + p2 + p3, p4, 0, 3, 4, 4);
            lemma_order_concat(p0 + p1 + p2 + p3 + p4, p5, 0, 4, 5, 5);
            lemma_order_concat(p0 + p1 + p2 + p3 + p4 + p5, p6, 0, 5, 6, 6);
            lemma_order_concat(p0 + p1 + p2 + p3 + p4 + p5 + p6, p7, 0, 6, 7, 7);
        },
        EventView::StructureBegin { timestamps, name } => {
            let p1 = one(RecordType::BgnStr, BodyView::TwoByteSignedInt(timestamps));
            let p2 = one(RecordType::StrName, BodyView::AsciiString(name));
            lemma_order_one(RecordType::BgnStr, BodyView::TwoByteSignedInt(timestamps));
            lemma_order_one(RecordType::StrName, BodyView::AsciiString(name));
            lemma_order_concat(endel_records(owed), p1, -1, -1, 0, 0);
            lemma_order_concat(endel_records(owed) + p1, p2, -1, 0, 1, 1);
        },
        EventView::Element(el) => {
            lemma_element_order_within(el, split);
            lemma_order_concat(endel_records(owed), element_records(el, split), -1, -1, 0, 15);
        },
        EventView::Property { attr, value } => {
            let p0 = one(RecordType::Propattr, BodyView::TwoByteSignedInt(seq![attr]));
            let p1 = one(RecordType::Propvalue, BodyView::AsciiString(value));
            lemma_order_one(RecordType::Propattr, BodyView::TwoByteSignedInt(seq![attr]));
            lemma_order_one(RecordType::Propvalue, BodyView::AsciiString(value));
            lemma_order_concat(p0, p1, 0, 0, 1, 1);
        },
        EventView::StructureEnd => {
            lemma_order_one(RecordType::EndStr, BodyView::NoData);
            lemma_order_concat(endel_records(owed), one(RecordType::EndStr, BodyView::NoData), -1, -1, 0, 0);
        },
        EventView::LibraryEnd => {
            lemma_order_one(RecordType::EndLib, BodyView::NoData);
            lemma_order_concat(endel_records(owed), one(RecordType::EndLib, BodyView::NoData), -1, -1, 0, 0);
        },
    }
}

proof fn lemma_element_order_within(el: ElementView, split: bool)
    ensures
        ordered_within(element_records(el, split), 0, 15),
{
    lemma_order_xy(el_xy(el), split);
    match el {
        ElementView::Boundary { elflags, plex, layer, datatype, xy } => {
            let p0 = one(RecordType::Boundary, BodyView::NoData);
            let p1 = elflags_plex_records(elflags, plex);
            let p2 = one(RecordType::Layer, BodyView::TwoByteSignedInt(seq![layer]));
            let p3 = one(RecordType::Datatype, BodyView::TwoByteSignedInt(seq![datatype]));
            lemma_order_one(RecordType::Boundary, BodyView::NoData);
            lemma_order_elflags_plex(elflags, plex);
            lemma_order_one(RecordType::Layer, BodyView::TwoByteSignedInt(seq![layer]));
            lemma_order_one(RecordType::Datatype, BodyView::TwoByteSignedInt(seq![datatype]));
            lemma_order_concat(p0, p1, 0, 0, 1, 2);
            lemma_order_concat(p0 + p1, p2, 0, 2, 3, 3);
            lemma_order_concat(p0 + p1 + p2, p3, 0, 3, 4, 4);
            lemma_order_concat(p0 + p1 + p2 + p3, xy_records(xy, split), 0, 4, 14, 14);
            lemma_order_widen(element_records(el, split), 0, 14, 15);
        },
        ElementView::Path {
            elflags,
            plex,
            layer,
            datatype,
            pathtype,
            width,
            bgn_extn,
            end_extn,
            xy,
        } => {
            let p0 = one(RecordType::Path, BodyView::NoData);
            let p1 = elflags_plex_records(elflags, plex);
            let p2 = one(RecordType::Layer, BodyView::TwoByteSignedInt(seq![layer]));
            let p3 = one(RecordType::Datatype, BodyView::TwoByteSignedInt(seq![datatype]));
            let p4 = opt_i16(RecordType::Pathtype, pathtype);
            let p5 = opt_i32(RecordType::Width, width);
            let p6 = opt_i32(RecordType::BgnExtn, bgn_extn);
            let p7 = opt_i32(RecordType::EndExtn, end_extn);
            lemma_order_one(RecordType::Path, BodyView::NoData);
            lemma_order_elflags_plex(elflags, plex);
            lemma_order_one(RecordType::Layer, BodyView::TwoByteSignedInt(seq![layer]));
            lemma_order_one(RecordType::Datatype, BodyView::TwoByteSignedInt(seq![datatype]));
            lemma_order_opt_i16(RecordType::Pathtype, pathtype);
            lemma_order_opt_i32(RecordType::Width, width);
            lemma_order_opt_i32(RecordType::BgnExtn, bgn_extn);
            lemma_order_opt_i32(RecordType::EndExtn, end_extn);
            lemma_order_concat(p0, p1, 0, 0, 1, 2);
            lemma_order_concat(p0 + p1, p2, 0, 2, 3, 3);
            lemma_order_concat(p0 + p1 + p2, p3, 0, 3, 4, 4);
            lemma_order_concat(p0 + p1 + p2 + p3, p4, 0, 4, 6, 6);
            lemma_order_concat(p0 + p1 + p2 + p3 + p4, p5, 0, 6, 7, 7);
            lemma_order_concat(p0 + p1 + p2 + p3 + p4 + p5, p6, 0, 7, 8, 8);
            lemma_order_concat(p0 + p1 + p2 + p3 + p4 + p5 + p6, p7, 0, 8, 9, 9);
            lemma_order_concat(
                p0 + p1 + p2 + p3 + p4 + p5 + p6 + p7,
                xy_records(xy, split),
                0,
                9,
                14,
                14,
            );
            lemma_order_widen(element_records(el, split), 0, 14, 15);
        },
        ElementView::Sref { elflags, plex, sname, strans, xy } => {
            let p0 = one(RecordType::Sref, BodyView::NoData);
            let p1 = elflags_plex_records(elflags, plex);
            let p2 = one(RecordType::Sname, BodyView::AsciiString(sname));
            let p3 = strans_records(strans);
            lemma_order_one(RecordType::Sref, BodyView::NoData);
            lemma_order_elflags_plex(elflags, plex);
            lemma_order_one(RecordType::Sname, BodyView::AsciiString(sname));
            lemma_order_strans(strans);
            lemma_order_concat(p0, p1, 0, 0, 1, 2);
            lemma_order_concat(p0 + p1, p2, 0, 2, 3, 3);
            lemma_order_concat(p0 + p1 + p2, p3, 0, 3, 10, 12);
            lemma_order_concat(p0 + p1 + p2 + p3, xy_records(xy, split), 0, 12, 14, 14);
            lemma_order_widen(element_records(el, split), 0, 14, 15);
        },
        ElementView::Aref { elflags, plex, sname, strans, colrow, xy } => {
            let p0 = one(RecordType::Aref, BodyView::NoData);
            let p1 = elflags_plex_records(elflags, plex);
            let p2 = one(RecordType::Sname, BodyView::AsciiString(sname));
            let p3 = strans_records(strans);
            let p4 = one(RecordType::Colrow, BodyView::TwoByteSignedInt(seq![colrow.0, colrow.1]));
            lemma_order_one(RecordType::Aref, BodyView::NoData);
            lemma_order_elflags_plex(elflags, plex);
            lemma_order_one(RecordType::Sname, BodyView::AsciiString(sname));
            lemma_order_strans(strans);
            lemma_order_one(
                RecordType::Colrow,
                BodyView::TwoByteSignedInt(seq![colrow.0, colrow.1]),
            );
            lemma_order_concat(p0, p1, 0, 0, 1, 2);
            lemma_order_concat(p0 + p1, p2, 0, 2, 3, 3);
            lemma_order_concat(p0 + p1 + p2, p3, 0, 3, 10, 12);
            lemma_order_concat(p0 + p1 + p2 + p3, p4, 0, 12, 13, 13);
            lemma_order_concat(p0 + p1 + p2 + p3 + p4, xy_records(xy, split), 0, 13, 14, 14);
            lemma_order_widen(element_records(el, split), 0, 14, 15);
        },
        ElementView::Text {
            elflags,
            plex,
            layer,
            texttype,
            presentation,
            pathtype,
            width,
            strans,
            xy,
            string,
        } => {
            let p0 = one(RecordType::Text, BodyView::NoData);
            let p1 = elflags_plex_records(elflags, plex);
            let p2 = one(RecordType::Layer, BodyView::TwoByteSignedInt(seq![layer]));
            let p3 = one(RecordType::TextType, BodyView::TwoByteSignedInt(seq![texttype]));
            let p4 = opt_u16(RecordType::Presentation, presentation);
            let p5 = opt_i16(RecordType::Pathtype, pathtype);
            let p6 = opt_i32(RecordType::Width, width);
            let p7 = strans_records(strans);
            let p8 = xy_records(xy, split);
            let p9 = one(RecordType::String, BodyView::AsciiString(string));
            lemma_order_one(RecordType::Text, BodyView::NoData);
            lemma_order_elflags_plex(elflags, plex);
            lemma_order_one(RecordType::Layer, BodyView::TwoByteSignedInt(seq![layer]));
            lemma_order_one(RecordType::TextType, BodyView::TwoByteSignedInt(seq![texttype]));
            lemma_order_opt_u16(RecordType::Presentation, presentation);
            lemma_order_opt_i16(RecordType::Pathtype, pathtype);
            lemma_order_opt_i32(RecordType::Width, width);
            lemma_order_strans(strans);
            lemma_order_one(RecordType::String, BodyView::AsciiString(string));
            lemma_order_concat(p0, p1, 0, 0, 1, 2);
            lemma_order_concat(p0 + p1, p2, 0, 2, 3, 3);
            lemma_order_concat(p0 + p1 + p2, p3, 0, 3, 4, 4);
            lemma_order_concat(p0 + p1 + p2 + p3, p4, 0, 4, 5, 5);
            lemma_order_concat(p0 + p1 + p2 + p3 + p4, p5, 0, 5, 6, 6);
            lemma_order_concat(p0 + p1 + p2 + p3 + p4 + p5, p6, 0, 6, 7, 7);
            lemma_order_concat(p0 + p1 + p2 + p3 + p4 + p5 + p6, p7, 0, 7, 10, 12);
            lemma_order_concat(p0 + p1 + p2 + p3 + p4 + p5 + p6 + p7, p8, 0, 12, 14, 14);
            lemma_order_concat(p0 + p1 + p2 + p3 + p4 + p5 + p6 + p7 + p8, p9, 0, 14, 15, 15);
        },
        ElementView::Node { elflags, plex, layer, nodetype, xy } => {
            let p0 = one(RecordType::Node, BodyView::NoData);
            let p1 = elflags_plex_records(elflags, plex);
            let p2 = one(RecordType::Layer, BodyView::TwoByteSignedInt(seq![layer]));
            let p3 = one(RecordType::Nodetype, BodyView::TwoByteSignedInt(seq![nodetype]));
            lemma_order_one(RecordType::Node, BodyView::NoData);
            lemma_order_elflags_plex(elflags, plex);
            lemma_order_one(RecordType::Layer, BodyView::TwoByteSignedInt(seq![layer]));
            lemma_order_one(RecordType::Nodetype, BodyView::TwoByteSignedInt(seq![nodetype]));
            lemma_order_concat(p0, p1, 0, 0, 1, 2);
            lemma_order_concat(p0 + p1, p2, 0, 2, 3, 3);
            lemma_order_concat(p0 + p1 + p2, p3, 0, 3, 4, 4);
            lemma_order_concat(p0 + p1 + p2 + p3, xy_records(xy, split), 0, 4, 14, 14);
            lemma_order_widen(element_records(el, split), 0, 14, 15);
        },
        ElementView::Box { elflags, plex, layer, boxtype, xy } => {
            let p0 = one(RecordType::Box, BodyView::NoData);
            let p1 = elflags_plex_records(elflags, plex);
            let p2 = one(RecordType::Layer, BodyView::TwoByteSignedInt(seq![layer]));
            let p3 = one(RecordType::BoxType, BodyView::TwoByteSignedInt(seq![boxtype]));
            lemma_order_one(RecordType::Box, BodyView::NoData);
            lemma_order_elflags_plex(elflags, plex);
            lemma_order_one(RecordType::Layer, BodyView::TwoByteSignedInt(seq![layer]));
            lemma_order_one(RecordType::BoxType, BodyView::TwoByteSignedInt(seq![boxtype]));
            lemma_order_concat(p0, p1, 0, 0, 1, 2);
            lemma_order_concat(p0 + p1, p2, 0, 2, 3, 3);
            lemma_order_concat(p0 + p1 + p2, p3, 0, 3, 4, 4);
            lemma_order_concat(p0 + p1 + p2 + p3, xy_records(xy, split), 0, 4, 14, 14);
            lemma_order_widen(element_records(el, split), 0, 14, 15);
        },
    }
}

/// The coordinates of an element.
spec fn el_xy(el: ElementView) -> Seq<i32> {
    match el {
        ElementView::Boundary { xy, .. } => xy,
        ElementView::Path { xy, .. } => xy,
        ElementView::Sref { xy, .. } => xy,
        ElementView::Aref { xy, .. } => xy,
        ElementView::Text { xy, .. } => xy,
        ElementView::Node { xy, .. } => xy,
        ElementView::Box { xy, .. } => xy,
    }
}

} // verus!
