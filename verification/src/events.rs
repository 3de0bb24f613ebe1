//! Events of a GDS stream and the elements they carry.
use crate::float::GdsEightByteReal;
use vstd::prelude::*;
use vstd::string::StringSliceAdditionalSpecFns;

verus! {

/// Coordinates of an element, flat: `[x0, y0, x1, y1, ...]` in database units.
#[derive(Debug, PartialEq, Eq)]
pub struct XyCoords {
    coords: Vec<i32>,
}

impl View for XyCoords {
    type V = Seq<i32>;

    closed spec fn view(&self) -> Seq<i32> {
        self.coords@
    }
}

impl XyCoords {
    /// Coordinates from their flat list.
    pub fn new(coords: Vec<i32>) -> (r: Self)
        ensures
            r@ == coords@,
    {
        XyCoords { coords }
    }

    /// Number of coordinates (twice the number of points).
    pub fn len(&self) -> (r: usize)
        ensures
            r == self@.len(),
    {
        self.coords.len()
    }

    /// Whether there is no coordinate.
    pub fn is_empty(&self) -> (r: bool)
        ensures
            r == (self@.len() == 0),
    {
        self.coords.len() == 0
    }

    /// Number of points.
    pub fn num_points(&self) -> (r: usize)
        ensures
            r == self@.len() / 2,
    {
        self.coords.len() / 2
    }

    /// The flat coordinates.
    pub fn as_slice(&self) -> (r: &[i32])
        ensures
            r@ == self@,
    {
        self.coords.as_slice()
    }
}

/// Transformation from STRANS, MAG and ANGLE records. MAG and ANGLE are the raw reals,
/// kept so that writing them back gives the same bytes.
#[derive(Debug, Clone, Copy, PartialEq, Eq)]
pub struct Strans {
    /// Reflect about the X axis before rotation.
    pub reflection: bool,
    /// Magnification is absolute.
    pub abs_mag: bool,
    /// Angle is absolute.
    pub abs_angle: bool,
    /// Magnification factor.
    pub mag: Option<GdsEightByteReal>,
    /// Rotation angle in degrees, counterclockwise.
    pub angle: Option<GdsEightByteReal>,
}

/// Mathematical value of a transformation: reals as their raw bytes.
pub struct StransView {
    pub reflection: bool,
    pub abs_mag: bool,
    pub abs_angle: bool,
    pub mag: Option<Seq<u8>>,
    pub angle: Option<Seq<u8>>,
}

/// Raw bytes of an optional real.
pub open spec fn opt_real_bytes(r: Option<GdsEightByteReal>) -> Option<Seq<u8>> {
    match r {
        Some(r) => Some(r.0@),
        None => None,
    }
}

impl View for Strans {
    type V = StransView;

    open spec fn view(&self) -> StransView {
        StransView {
            reflection: self.reflection,
            abs_mag: self.abs_mag,
            abs_angle: self.abs_angle,
            mag: opt_real_bytes(self.mag),
            angle: opt_real_bytes(self.angle),
        }
    }
}

/// View of an optional transformation.
pub open spec fn opt_strans_view(s: Option<Strans>) -> Option<StransView> {
    match s {
        Some(s) => Some(s@),
        None => None,
    }
}

/// Library metadata from the HEADER, BGNLIB, LIBNAME, optional library records and UNITS.
#[derive(Debug)]
pub struct LibraryBegin<'data> {
    /// Stream format version.
    pub version: i16,
    /// Modification then access time: year, month, day, hour, minute, second each.
    pub timestamps: Vec<i16>,
    /// Library name.
    pub lib_name: &'data str,
    /// Size of a database unit in user units, as its raw real.
    pub db_in_user: GdsEightByteReal,
    /// Size of a database unit in meters, as its raw real.
    pub db_in_meters: GdsEightByteReal,
    /// Reference library names.
    pub reflibs: Option<&'data str>,
    /// Text font definition file names.
    pub fonts: Option<&'data str>,
    /// Attribute definition file name.
    pub attrtable: Option<&'data str>,
    /// Number of deleted or backed-up structure copies to keep.
    pub generations: Option<i16>,
}

/// Structure header from the BGNSTR and STRNAME records.
#[derive(Debug)]
pub struct StructureBegin<'data> {
    /// Creation then modification time.
    pub timestamps: Vec<i16>,
    /// Structure name.
    pub name: &'data str,
}

/// PROPATTR/PROPVALUE pair attached to an element.
#[derive(Debug)]
pub struct Property<'data> {
    /// Attribute number.
    pub attr: i16,
    /// Attribute value.
    pub value: &'data str,
}

/// Filled polygon.
#[derive(Debug)]
pub struct Boundary {
    pub elflags: Option<u16>,
    pub plex: Option<i32>,
    pub layer: i16,
    pub datatype: i16,
    pub xy: XyCoords,
}

/// Wire with optional width and endpoint style.
#[derive(Debug)]
pub struct Path {
    pub elflags: Option<u16>,
    pub plex: Option<i32>,
    pub layer: i16,
    pub datatype: i16,
    /// 0 flush, 1 round, 2 extended by half the width, 4 custom extensions.
    pub pathtype: Option<i16>,
    /// Width in database units; negative means absolute.
    pub width: Option<i32>,
    /// Extension beyond the start point (pathtype 4).
    pub bgn_extn: Option<i32>,
    /// Extension beyond the end point (pathtype 4).
    pub end_extn: Option<i32>,
    pub xy: XyCoords,
}

/// Placement of one structure.
#[derive(Debug)]
pub struct Sref<'data> {
    pub elflags: Option<u16>,
    pub plex: Option<i32>,
    /// Name of the placed structure.
    pub sname: &'data str,
    pub strans: Option<Strans>,
    pub xy: XyCoords,
}

/// Placement of a structure on a grid.
#[derive(Debug)]
pub struct Aref<'data> {
    pub elflags: Option<u16>,
    pub plex: Option<i32>,
    /// Name of the placed structure.
    pub sname: &'data str,
    pub strans: Option<Strans>,
    /// `(columns, rows)`.
    pub colrow: (i16, i16),
    /// Reference point, column end point and row end point.
    pub xy: XyCoords,
}

/// Text annotation.
#[derive(Debug)]
pub struct Text<'data> {
    pub elflags: Option<u16>,
    pub plex: Option<i32>,
    pub layer: i16,
    pub texttype: i16,
    /// Font and justification flags.
    pub presentation: Option<u16>,
    pub pathtype: Option<i16>,
    pub width: Option<i32>,
    pub strans: Option<Strans>,
    pub xy: XyCoords,
    /// The text.
    pub string: &'data str,
}

/// Electrical node.
#[derive(Debug)]
pub struct Node {
    pub elflags: Option<u16>,
    pub plex: Option<i32>,
    pub layer: i16,
    pub nodetype: i16,
    pub xy: XyCoords,
}

/// Box element (named so as not to shadow `std::boxed::Box`).
#[derive(Debug)]
pub struct GdsBox {
    pub elflags: Option<u16>,
    pub plex: Option<i32>,
    pub layer: i16,
    pub boxtype: i16,
    pub xy: XyCoords,
}

/// A geometric or reference element.
#[derive(Debug)]
pub enum Element<'data> {
    Boundary(Boundary),
    Path(Path),
    Sref(Sref<'data>),
    Aref(Aref<'data>),
    Text(Text<'data>),
    Node(Node),
    Box(GdsBox),
}

/// Event of a GDS stream: `LibraryBegin` first, then structures with their elements and
/// properties, then `LibraryEnd`.
#[derive(Debug)]
pub enum GdsEvent<'data> {
    LibraryBegin(LibraryBegin<'data>),
    StructureBegin(StructureBegin<'data>),
    Element(Element<'data>),
    /// Property of the element before it.
    Property(Property<'data>),
    StructureEnd,
    LibraryEnd,
}

// ------------------------------------------------------------------------------------------
// Views
// ------------------------------------------------------------------------------------------

/// Mathematical value of an element: strings as their bytes.
pub enum ElementView {
    Boundary {
        elflags: Option<u16>,
        plex: Option<i32>,
        layer: i16,
        datatype: i16,
        xy: Seq<i32>,
    },
    Path {
        elflags: Option<u16>,
        plex: Option<i32>,
        layer: i16,
        datatype: i16,
        pathtype: Option<i16>,
        width: Option<i32>,
        bgn_extn: Option<i32>,
        end_extn: Option<i32>,
        xy: Seq<i32>,
    },
    Sref {
        elflags: Option<u16>,
        plex: Option<i32>,
        sname: Seq<u8>,
        strans: Option<StransView>,
        xy: Seq<i32>,
    },
    Aref {
        elflags: Option<u16>,
        plex: Option<i32>,
        sname: Seq<u8>,
        strans: Option<StransView>,
        colrow: (i16, i16),
        xy: Seq<i32>,
    },
    Text {
        elflags: Option<u16>,
        plex: Option<i32>,
        layer: i16,
        texttype: i16,
        presentation: Option<u16>,
        pathtype: Option<i16>,
        width: Option<i32>,
        strans: Option<StransView>,
        xy: Seq<i32>,
        string: Seq<u8>,
    },
    Node { elflags: Option<u16>, plex: Option<i32>, layer: i16, nodetype: i16, xy: Seq<i32> },
    Box { elflags: Option<u16>, plex: Option<i32>, layer: i16, boxtype: i16, xy: Seq<i32> },
}

/// Mathematical value of an event: strings as their bytes, reals as their raw bytes.
pub enum EventView {
    LibraryBegin {
        version: i16,
        timestamps: Seq<i16>,
        lib_name: Seq<u8>,
        db_in_user: Seq<u8>,
        db_in_meters: Seq<u8>,
        reflibs: Option<Seq<u8>>,
        fonts: Option<Seq<u8>>,
        attrtable: Option<Seq<u8>>,
        generations: Option<i16>,
    },
    StructureBegin { timestamps: Seq<i16>, name: Seq<u8> },
    Element(ElementView),
    Property { attr: i16, value: Seq<u8> },
    StructureEnd,
    LibraryEnd,
}

/// Bytes of an optional string.
pub open spec fn opt_bytes(s: Option<&str>) -> Option<Seq<u8>> {
    match s {
        Some(s) => Some(s.spec_bytes()),
        None => None,
    }
}

impl<'data> View for Element<'data> {
    type V = ElementView;

    open spec fn view(&self) -> ElementView {
        match self {
            Element::Boundary(b) => ElementView::Boundary {
                elflags: b.elflags,
                plex: b.plex,
                layer: b.layer,
                datatype: b.datatype,
                xy: b.xy@,
            },
            Element::Path(p) => ElementView::Path {
                elflags: p.elflags,
                plex: p.plex,
                layer: p.layer,
                datatype: p.datatype,
                pathtype: p.pathtype,
                width: p.width,
                bgn_extn: p.bgn_extn,
                end_extn: p.end_extn,
                xy: p.xy@,
            },
            Element::Sref(s) => ElementView::Sref {
                elflags: s.elflags,
                plex: s.plex,
                sname: s.sname.spec_bytes(),
                strans: opt_strans_view(s.strans),
                xy: s.xy@,
            },
            Element::Aref(a) => ElementView::Aref {
                elflags: a.elflags,
                plex: a.plex,
                sname: a.sname.spec_bytes(),
                strans: opt_strans_view(a.strans),
                colrow: a.colrow,
                xy: a.xy@,
            },
            Element::Text(t) => ElementView::Text {
                elflags: t.elflags,
                plex: t.plex,
                layer: t.layer,
                texttype: t.texttype,
                presentation: t.presentation,
                pathtype: t.pathtype,
                width: t.width,
                strans: opt_strans_view(t.strans),
                xy: t.xy@,
                string: t.string.spec_bytes(),
            },
            Element::Node(n) => ElementView::Node {
                elflags: n.elflags,
                plex: n.plex,
                layer: n.layer,
                nodetype: n.nodetype,
                xy: n.xy@,
            },
            Element::Box(b) => ElementView::Box {
                elflags: b.elflags,
                plex: b.plex,
                layer: b.layer,
                boxtype: b.boxtype,
                xy: b.xy@,
            },
        }
    }
}

impl<'data> LibraryBegin<'data> {
    /// The view of the event that carries this header.
    pub open spec fn event_view(&self) -> EventView {
        EventView::LibraryBegin {
            version: self.version,
            timestamps: self.timestamps@,
            lib_name: self.lib_name.spec_bytes(),
            db_in_user: self.db_in_user.0@,
            db_in_meters: self.db_in_meters.0@,
            reflibs: opt_bytes(self.reflibs),
            fonts: opt_bytes(self.fonts),
            attrtable: opt_bytes(self.attrtable),
            generations: self.generations,
        }
    }
}

impl<'data> View for GdsEvent<'data> {
    type V = EventView;

    open spec fn view(&self) -> EventView {
        match self {
            GdsEvent::LibraryBegin(l) => l.event_view(),
            GdsEvent::StructureBegin(s) => EventView::StructureBegin {
                timestamps: s.timestamps@,
                name: s.name.spec_bytes(),
            },
            GdsEvent::Element(e) => EventView::Element(e@),
            GdsEvent::Property(p) => EventView::Property { attr: p.attr, value: p.value.spec_bytes() },
            GdsEvent::StructureEnd => EventView::StructureEnd,
            GdsEvent::LibraryEnd => EventView::LibraryEnd,
        }
    }
}

} // verus!
