//! Floating drawing shapes (`wps:wsp` with geometry but no text box) scanned
//! from the raw `word/document.xml`, in document order, and handed out one at a
//! time as the document walk meets geometry-only drawings.
//!
//! All lengths stay in EMU, as the XML writes them.

use vstd::prelude::*;
use crate::page::opt_str_view;
use crate::ir::{ArrowHead, BorderLineStyle, BorderSide, Color, Decimal, FloatingShape, Shape, ShapeKind, WrapMode};
use crate::styles::{hex_color, parse_hex_color};
use crate::text::{parse_i64, parse_i64_spec, str_eq, trim_spec, trimmed_chars};
use crate::xml::{
    ends_reading, find_attribute, xml_events_of, raw_attribute, raw_attribute_value, read_xml_events, tag_attribute,
    XmlEvent, XmlTag,
};

verus! {

/// Stroke width used when `<a:ln>` asks for the renderer's hairline (`w="0"`) or
/// gives no width: 0.75 pt, in EMU.
pub const DEFAULT_STROKE_WIDTH_EMU: i64 = 9525;

/// Which `<wp:positionH>` / `<wp:positionV>` the current `<wp:posOffset>` belongs to.
#[derive(Clone, Copy, Debug, PartialEq, Eq)]
pub enum PositionAxis {
    Unset,
    Horizontal,
    Vertical,
}

/// The preset geometries (`<a:prstGeom prst=..>`) that change how a shape is drawn.
#[derive(Clone, Copy, Debug, PartialEq, Eq)]
pub enum PresetGeometry {
    /// `line` or `straightConnector1`.
    Line,
    /// `ellipse` or `oval`.
    Ellipse,
    /// `roundRect`.
    RoundRect,
    /// `rect` and every preset drawn as a rectangle.
    Other,
}

pub open spec fn preset_geometry(prst: Seq<char>) -> PresetGeometry {
    if prst == "line"@ || prst == "straightConnector1"@ {
        PresetGeometry::Line
    } else if prst == "ellipse"@ || prst == "oval"@ {
        PresetGeometry::Ellipse
    } else if prst == "roundRect"@ {
        PresetGeometry::RoundRect
    } else {
        PresetGeometry::Other
    }
}

fn classify_preset(prst: &str) -> (preset: PresetGeometry)
    ensures
        preset == preset_geometry(prst@),
{
    if str_eq(prst, "line") || str_eq(prst, "straightConnector1") {
        PresetGeometry::Line
    } else if str_eq(prst, "ellipse") || str_eq(prst, "oval") {
        PresetGeometry::Ellipse
    } else if str_eq(prst, "roundRect") {
        PresetGeometry::RoundRect
    } else {
        PresetGeometry::Other
    }
}

/// What has been read so far of one `<w:drawing>`.
#[derive(Clone, Copy, Debug)]
pub struct ShapeBuilder {
    pub has_wsp: bool,
    pub has_text_box: bool,
    pub preset: Option<PresetGeometry>,
    pub box_width: Option<i64>,
    pub box_height: Option<i64>,
    pub offset_x: i64,
    pub offset_y: i64,
    pub flip_h: bool,
    pub flip_v: bool,
    pub fill_color: Option<Color>,
    pub fill_none: bool,
    pub line_color: Option<Color>,
    pub line_width: Option<i64>,
    pub line_none: bool,
    pub has_line: bool,
    pub head_arrow: bool,
    pub tail_arrow: bool,
}

pub open spec fn fresh_builder() -> ShapeBuilder {
    ShapeBuilder {
        has_wsp: false,
        has_text_box: false,
        preset: None,
        box_width: None,
        box_height: None,
        offset_x: 0,
        offset_y: 0,
        flip_h: false,
        flip_v: false,
        fill_color: None,
        fill_none: false,
        line_color: None,
        line_width: None,
        line_none: false,
        has_line: false,
        head_arrow: false,
        tail_arrow: false,
    }
}

pub open spec fn arrow_head(present: bool) -> ArrowHead {
    if present { ArrowHead::Triangle } else { ArrowHead::Flat }
}

/// The arrowhead a line end has: a triangle when the end is present.
pub fn arrow(present: bool) -> (head: ArrowHead)
    ensures
        head == arrow_head(present),
{
    if present { ArrowHead::Triangle } else { ArrowHead::Flat }
}

/// The geometry of a finished shape whose bounding box is `width` x `height`:
/// a line runs corner to corner, the flips choosing the diagonal.
pub open spec fn shape_kind(b: ShapeBuilder, width: i64, height: i64) -> ShapeKind {
    match b.preset {
        Some(PresetGeometry::Line) => ShapeKind::Line {
            x1: if b.flip_h { width } else { 0 },
            y1: if b.flip_v { height } else { 0 },
            x2: if b.flip_h { 0 } else { width },
            y2: if b.flip_v { 0 } else { height },
            head_end: arrow_head(b.head_arrow),
            tail_end: arrow_head(b.tail_arrow),
        },
        Some(PresetGeometry::Ellipse) => ShapeKind::Ellipse,
        Some(PresetGeometry::RoundRect) => ShapeKind::RoundedRectangle { radius_fraction: Decimal::of(1, 1) },
        _ => ShapeKind::Rectangle,
    }
}

/// The outline: none when `<a:ln>` is absent or has `<a:noFill/>`; otherwise
/// solid, black unless colored, `DEFAULT_STROKE_WIDTH_EMU` unless a positive
/// width was given.
pub open spec fn shape_stroke(b: ShapeBuilder) -> Option<BorderSide> {
    if b.line_none || !b.has_line {
        None
    } else {
        Some(BorderSide {
            width_emu: match b.line_width {
                Some(w) => if w > 0 { w } else { DEFAULT_STROKE_WIDTH_EMU },
                None => DEFAULT_STROKE_WIDTH_EMU,
            },
            color: match b.line_color {
                Some(c) => c,
                None => Color { r: 0, g: 0, b: 0 },
            },
            style: BorderLineStyle::Solid,
        })
    }
}

/// The shape a finished drawing yields: none for a picture or a text box (no
/// `wsp`, or a `txbx`), and none for a shape that would draw nothing (no fill, no
/// outline, and not a line).
pub open spec fn finished_shape(b: ShapeBuilder) -> Option<FloatingShape> {
    if !b.has_wsp || b.has_text_box {
        None
    } else {
        let width: i64 = match b.box_width { Some(w) => w, None => 0 };
        let height: i64 = match b.box_height { Some(h) => h, None => 0 };
        let kind = shape_kind(b, width, height);
        let fill = if b.fill_none { None } else { b.fill_color };
        let stroke = shape_stroke(b);
        if fill is None && stroke is None && !(kind is Line) {
            None
        } else {
            Some(FloatingShape {
                shape: Shape { kind, fill, stroke },
                width,
                height,
                offset_x: b.offset_x,
                offset_y: b.offset_y,
                wrap_mode: WrapMode::NoWrap,
            })
        }
    }
}

impl ShapeBuilder {
    pub fn new() -> (b: ShapeBuilder)
        ensures
            b == fresh_builder(),
    {
        ShapeBuilder {
            has_wsp: false,
            has_text_box: false,
            preset: None,
            box_width: None,
            box_height: None,
            offset_x: 0,
            offset_y: 0,
            flip_h: false,
            flip_v: false,
            fill_color: None,
            fill_none: false,
            line_color: None,
            line_width: None,
            line_none: false,
            has_line: false,
            head_arrow: false,
            tail_arrow: false,
        }
    }

    pub fn resolve_kind(&self, width: i64, height: i64) -> (kind: ShapeKind)
        ensures
            kind == shape_kind(*self, width, height),
    {
        match self.preset {
            Some(PresetGeometry::Line) => {
                let (x1, x2) = if self.flip_h { (width, 0) } else { (0, width) };
                let (y1, y2) = if self.flip_v { (height, 0) } else { (0, height) };
                ShapeKind::Line {
                    x1,
                    y1,
                    x2,
                    y2,
                    head_end: arrow(self.head_arrow),
                    tail_end: arrow(self.tail_arrow),
                }
            },
            Some(PresetGeometry::Ellipse) => ShapeKind::Ellipse,
            Some(PresetGeometry::RoundRect) => ShapeKind::RoundedRectangle { radius_fraction: Decimal::from_parts(1, 1) },
            _ => ShapeKind::Rectangle,
        }
    }

    pub fn resolve_stroke(&self) -> (stroke: Option<BorderSide>)
        ensures
            stroke == shape_stroke(*self),
    {
        if self.line_none || !self.has_line {
            return None;
        }
        let width_emu: i64 = match self.line_width {
            Some(w) => if w > 0 { w } else { DEFAULT_STROKE_WIDTH_EMU },
            None => DEFAULT_STROKE_WIDTH_EMU,
        };
        let color = match self.line_color {
            Some(c) => c,
            None => Color { r: 0, g: 0, b: 0 },
        };
        Some(BorderSide { width_emu, color, style: BorderLineStyle::Solid })
    }

    pub fn finish(self) -> (shape: Option<FloatingShape>)
        ensures
            shape == finished_shape(self),
    {
        if !self.has_wsp || self.has_text_box {
            return None;
        }
        let width: i64 = match self.box_width { Some(w) => w, None => 0 };
        let height: i64 = match self.box_height { Some(h) => h, None => 0 };
        let kind = self.resolve_kind(width, height);
        let fill = if self.fill_none { None } else { self.fill_color };
        let stroke = self.resolve_stroke();
        let is_line = match kind {
            ShapeKind::Line { .. } => true,
            _ => false,
        };
        if fill.is_none() && stroke.is_none() && !is_line {
            return None;
        }
        Some(FloatingShape {
            shape: Shape { kind, fill, stroke },
            width,
            height,
            offset_x: self.offset_x,
            offset_y: self.offset_y,
            wrap_mode: WrapMode::NoWrap,
        })
    }
}

/// An EMU length attribute, parsed as `str::parse::<i64>` would.
pub open spec fn emu_attribute(tag: XmlTag, key: Seq<char>) -> Option<i64> {
    match raw_attribute(tag, key) {
        Some(v) => parse_i64_spec(v),
        None => None,
    }
}

/// An XML boolean attribute: `1` or `true`.
pub open spec fn bool_attribute(tag: XmlTag, key: Seq<char>) -> bool {
    raw_attribute(tag, key) == Some("1"@) || raw_attribute(tag, key) == Some("true"@)
}

/// A `headEnd`/`tailEnd` draws an arrowhead unless its `type` is `none`.
pub open spec fn arrow_type_present_spec(tag: XmlTag) -> bool {
    raw_attribute(tag, "type"@) != Some("none"@)
}

/// The color of a `val` attribute.
pub open spec fn color_attribute(tag: XmlTag) -> Option<Color> {
    match raw_attribute(tag, "val"@) {
        Some(v) => hex_color(v),
        None => None,
    }
}

/// How a geometry, fill or stroke element changes the drawing being read;
/// `sppr_depth`/`line_depth` tell whether it stands inside `<wps:spPr>` and
/// `<a:ln>`. Colors keep the first one given.
pub open spec fn apply_geometry(b: ShapeBuilder, tag: XmlTag, sppr_depth: usize, line_depth: usize) -> ShapeBuilder {
    let name = tag.name@;
    if name == "wsp"@ {
        ShapeBuilder { has_wsp: true, ..b }
    } else if name == "txbx"@ {
        ShapeBuilder { has_text_box: true, ..b }
    } else if name == "extent"@ {
        ShapeBuilder {
            box_width: match emu_attribute(tag, "cx"@) { Some(w) => Some(w), None => b.box_width },
            box_height: match emu_attribute(tag, "cy"@) { Some(h) => Some(h), None => b.box_height },
            ..b
        }
    } else if name == "prstGeom"@ {
        match raw_attribute(tag, "prst"@) {
            Some(p) => ShapeBuilder { preset: Some(preset_geometry(p)), ..b },
            None => b,
        }
    } else if name == "xfrm"@ {
        ShapeBuilder { flip_h: bool_attribute(tag, "flipH"@), flip_v: bool_attribute(tag, "flipV"@), ..b }
    } else if name == "srgbClr"@ && sppr_depth > 0 {
        match color_attribute(tag) {
            Some(c) => if line_depth > 0 {
                ShapeBuilder { line_color: if b.line_color is Some { b.line_color } else { Some(c) }, ..b }
            } else {
                ShapeBuilder { fill_color: if b.fill_color is Some { b.fill_color } else { Some(c) }, ..b }
            },
            None => b,
        }
    } else if name == "noFill"@ && sppr_depth > 0 {
        if line_depth > 0 { ShapeBuilder { line_none: true, ..b } } else { ShapeBuilder { fill_none: true, ..b } }
    } else if name == "tailEnd"@ && line_depth > 0 {
        ShapeBuilder { tail_arrow: arrow_type_present_spec(tag), ..b }
    } else if name == "headEnd"@ && line_depth > 0 {
        ShapeBuilder { head_arrow: arrow_type_present_spec(tag), ..b }
    } else {
        b
    }
}

/// The scanner's state between two events.
#[derive(Clone, Copy, Debug)]
pub struct ScanState {
    pub drawing_depth: usize,
    pub sppr_depth: usize,
    pub line_depth: usize,
    pub axis: PositionAxis,
    pub in_position_offset: bool,
    /// The drawing being read, while inside the outermost `<w:drawing>`.
    pub builder: Option<ShapeBuilder>,
}

pub open spec fn initial_scan_state() -> ScanState {
    ScanState {
        drawing_depth: 0,
        sppr_depth: 0,
        line_depth: 0,
        axis: PositionAxis::Unset,
        in_position_offset: false,
        builder: None,
    }
}

pub open spec fn with_geometry(s: ScanState, tag: XmlTag) -> ScanState {
    match s.builder {
        Some(b) => ScanState { builder: Some(apply_geometry(b, tag, s.sppr_depth, s.line_depth)), ..s },
        None => s,
    }
}

/// A start tag.
pub open spec fn scan_start(s: ScanState, tag: XmlTag) -> ScanState {
    let name = tag.name@;
    if name == "drawing"@ {
        let depth = (s.drawing_depth + 1) as usize;
        if depth == 1 {
            ScanState {
                drawing_depth: depth,
                sppr_depth: 0,
                line_depth: 0,
                axis: PositionAxis::Unset,
                in_position_offset: false,
                builder: Some(fresh_builder()),
            }
        } else {
            ScanState { drawing_depth: depth, ..s }
        }
    } else if name == "positionH"@ {
        ScanState { axis: PositionAxis::Horizontal, ..s }
    } else if name == "positionV"@ {
        ScanState { axis: PositionAxis::Vertical, ..s }
    } else if name == "posOffset"@ {
        ScanState { in_position_offset: true, ..s }
    } else if name == "spPr"@ && s.builder is Some {
        ScanState { sppr_depth: (s.sppr_depth + 1) as usize, ..s }
    } else if name == "ln"@ && s.builder is Some {
        let b = s.builder->0;
        let width = match emu_attribute(tag, "w"@) {
            Some(w) => Some(w),
            None => b.line_width,
        };
        ScanState {
            line_depth: (s.line_depth + 1) as usize,
            builder: Some(ShapeBuilder { has_line: true, line_width: width, ..b }),
            ..s
        }
    } else {
        with_geometry(s, tag)
    }
}

/// Character data: the position offset, in EMU, of the current axis.
pub open spec fn scan_text(s: ScanState, text: Seq<char>) -> ScanState {
    if s.in_position_offset && s.builder is Some {
        match parse_i64_spec(trim_spec(text)) {
            Some(emu) => match s.axis {
                PositionAxis::Horizontal => ScanState { builder: Some(ShapeBuilder { offset_x: emu, ..s.builder->0 }), ..s },
                PositionAxis::Vertical => ScanState { builder: Some(ShapeBuilder { offset_y: emu, ..s.builder->0 }), ..s },
                PositionAxis::Unset => s,
            },
            None => s,
        }
    } else {
        s
    }
}

/// An end tag; closing the outermost drawing yields its shape, if it is one.
pub open spec fn scan_end(s: ScanState, name: Seq<char>) -> (ScanState, Option<FloatingShape>) {
    if name == "posOffset"@ {
        (ScanState { in_position_offset: false, ..s }, None)
    } else if name == "positionH"@ || name == "positionV"@ {
        (ScanState { axis: PositionAxis::Unset, ..s }, None)
    } else if name == "spPr"@ && s.sppr_depth > 0 {
        (ScanState { sppr_depth: (s.sppr_depth - 1) as usize, ..s }, None)
    } else if name == "ln"@ && s.line_depth > 0 {
        (ScanState { line_depth: (s.line_depth - 1) as usize, ..s }, None)
    } else if name == "drawing"@ && s.drawing_depth > 0 {
        let depth = (s.drawing_depth - 1) as usize;
        if depth == 0 {
            (
                ScanState { drawing_depth: depth, builder: None, ..s },
                match s.builder {
                    Some(b) => finished_shape(b),
                    None => None,
                },
            )
        } else {
            (ScanState { drawing_depth: depth, ..s }, None)
        }
    } else {
        (s, None)
    }
}

/// One event: the next state, and the shape the event completed, if any.
pub open spec fn scan_step(s: ScanState, event: XmlEvent) -> (ScanState, Option<FloatingShape>) {
    match event {
        XmlEvent::Start(tag) => (scan_start(s, tag), None),
        XmlEvent::Empty(tag) => (with_geometry(s, tag), None),
        XmlEvent::Text(text) => (scan_text(s, text@), None),
        XmlEvent::End(name) => scan_end(s, name@),
        _ => (s, None),
    }
}

/// The shapes of `events[i..]`, after `found`, from state `s`; reading stops at
/// the end of input or at the first error.
pub open spec fn scan_events_from(events: Seq<XmlEvent>, i: int, s: ScanState, found: Seq<FloatingShape>) -> Seq<FloatingShape>
    decreases events.len() - i,
{
    if i < 0 || i >= events.len() || ends_reading(events[i]) {
        found
    } else {
        let (next, shape) = scan_step(s, events[i]);
        scan_events_from(
            events,
            i + 1,
            next,
            match shape {
                Some(f) => found.push(f),
                None => found,
            },
        )
    }
}

/// One `FloatingShape` per geometry-only drawing of the event sequence, in
/// document order.
pub open spec fn drawing_shapes(events: Seq<XmlEvent>) -> Seq<FloatingShape> {
    scan_events_from(events, 0, initial_scan_state(), Seq::empty())
}

/// A shape the renderer can draw: it has a fill, an outline or line geometry,
/// and an outline it has is at least a hairline.
pub open spec fn drawable_shape(f: FloatingShape) -> bool {
    &&& (f.shape.fill is Some || f.shape.stroke is Some || f.shape.kind is Line)
    &&& (f.shape.stroke matches Some(s) ==> s.width_emu > 0)
}

proof fn lemma_finished_drawable(b: ShapeBuilder)
    ensures
        finished_shape(b) matches Some(f) ==> drawable_shape(f),
{
}

proof fn lemma_step_drawable(s: ScanState, event: XmlEvent)
    ensures
        scan_step(s, event).1 matches Some(f) ==> drawable_shape(f),
{
    if let Some(b) = s.builder {
        lemma_finished_drawable(b);
    }
}

proof fn lemma_scan_keeps_drawable(events: Seq<XmlEvent>, i: int, s: ScanState, found: Seq<FloatingShape>)
    requires
        forall|k: int| 0 <= k < found.len() ==> drawable_shape(#[trigger] found[k]),
    ensures
        forall|k: int| 0 <= k < scan_events_from(events, i, s, found).len()
            ==> drawable_shape(#[trigger] scan_events_from(events, i, s, found)[k]),
    decreases events.len() - i,
{
    if !(i < 0 || i >= events.len() || ends_reading(events[i])) {
        let (next, shape) = scan_step(s, events[i]);
        let found2 = match shape {
            Some(f) => found.push(f),
            None => found,
        };
        lemma_step_drawable(s, events[i]);
        assert forall|k: int| 0 <= k < found2.len() implies drawable_shape(#[trigger] found2[k]) by {
            if k < found.len() {
                assert(found2[k] == found[k]);
            }
        }
        lemma_scan_keeps_drawable(events, i + 1, next, found2);
        assert(scan_events_from(events, i, s, found) == scan_events_from(events, i + 1, next, found2));
    } else {
        assert(scan_events_from(events, i, s, found) == found);
    }
}

/// Every shape scanned from a document can be drawn: it has a fill, an outline
/// or line geometry, and its outline, if any, has a positive width (`w="0"`
/// means a hairline, never an invisible outline).
pub proof fn law_scanned_shapes_are_drawable(events: Seq<XmlEvent>)
    ensures
        forall|k: int| 0 <= k < drawing_shapes(events).len() ==> drawable_shape(#[trigger] drawing_shapes(events)[k]),
{
    lemma_scan_keeps_drawable(events, 0, initial_scan_state(), Seq::empty());
}

fn emu_attr(tag: &XmlTag, key: &str) -> (value: Option<i64>)
    ensures
        value == emu_attribute(*tag, key@),
{
    match raw_attribute_value(tag, key) {
        Some(v) => parse_i64(v.as_str()),
        None => None,
    }
}

fn bool_attr(tag: &XmlTag, key: &str) -> (value: bool)
    ensures
        value == bool_attribute(*tag, key@),
{
    proof {
        reveal_strlit("1");
        reveal_strlit("true");
    }
    match raw_attribute_value(tag, key) {
        Some(v) => str_eq(v.as_str(), "1") || str_eq(v.as_str(), "true"),
        None => false,
    }
}

fn arrow_type_present(tag: &XmlTag) -> (present: bool)
    ensures
        present == arrow_type_present_spec(*tag),
{
    match raw_attribute_value(tag, "type") {
        Some(v) => !str_eq(v.as_str(), "none"),
        None => true,
    }
}

/// Applies a geometry, fill or stroke element to the drawing being read.
#[verifier::spinoff_prover]
#[verifier::rlimit(40)]
fn handle_geometry_element(builder: &mut ShapeBuilder, tag: &XmlTag, sppr_depth: usize, line_depth: usize)
    ensures
        *final(builder) == apply_geometry(*old(builder), *tag, sppr_depth, line_depth),
{
    let name = tag.name.as_str();
    if str_eq(name, "wsp") {
        builder.has_wsp = true;
    } else if str_eq(name, "txbx") {
        builder.has_text_box = true;
    } else if str_eq(name, "extent") {
        if let Some(w) = emu_attr(tag, "cx") {
            builder.box_width = Some(w);
        }
        if let Some(h) = emu_attr(tag, "cy") {
            builder.box_height = Some(h);
        }
    } else if str_eq(name, "prstGeom") {
        if let Some(p) = raw_attribute_value(tag, "prst") {
            builder.preset = Some(classify_preset(p.as_str()));
        }
    } else if str_eq(name, "xfrm") {
        builder.flip_h = bool_attr(tag, "flipH");
        builder.flip_v = bool_attr(tag, "flipV");
    } else if str_eq(name, "srgbClr") && sppr_depth > 0 {
        let color = match raw_attribute_value(tag, "val") {
            Some(v) => parse_hex_color(v.as_str()),
            None => None,
        };
        if let Some(c) = color {
            if line_depth > 0 {
                if builder.line_color.is_none() {
                    builder.line_color = Some(c);
                }
            } else if builder.fill_color.is_none() {
                builder.fill_color = Some(c);
            }
        }
    } else if str_eq(name, "noFill") && sppr_depth > 0 {
        if line_depth > 0 {
            builder.line_none = true;
        } else {
            builder.fill_none = true;
        }
    } else if str_eq(name, "tailEnd") && line_depth > 0 {
        builder.tail_arrow = arrow_type_present(tag);
    } else if str_eq(name, "headEnd") && line_depth > 0 {
        builder.head_arrow = arrow_type_present(tag);
    }
}

fn geometry_in(state: &mut ScanState, tag: &XmlTag)
    ensures
        *final(state) == with_geometry(*old(state), *tag),
{
    let sppr_depth = state.sppr_depth;
    let line_depth = state.line_depth;
    if let Some(b) = &mut state.builder {
        handle_geometry_element(b, tag, sppr_depth, line_depth);
    }
}

fn start_tag(state: &mut ScanState, tag: &XmlTag)
    requires
        old(state).drawing_depth < usize::MAX,
        old(state).sppr_depth < usize::MAX,
        old(state).line_depth < usize::MAX,
    ensures
        *final(state) == scan_start(*old(state), *tag),
{
    let name = tag.name.as_str();
    if str_eq(name, "drawing") {
        state.drawing_depth = state.drawing_depth + 1;
        if state.drawing_depth == 1 {
            state.builder = Some(ShapeBuilder::new());
            state.sppr_depth = 0;
            state.line_depth = 0;
            state.axis = PositionAxis::Unset;
            state.in_position_offset = false;
        }
    } else if str_eq(name, "positionH") {
        state.axis = PositionAxis::Horizontal;
    } else if str_eq(name, "positionV") {
        state.axis = PositionAxis::Vertical;
    } else if str_eq(name, "posOffset") {
        state.in_position_offset = true;
    } else if str_eq(name, "spPr") && state.builder.is_some() {
        state.sppr_depth = state.sppr_depth + 1;
    } else if str_eq(name, "ln") && state.builder.is_some() {
        let width = emu_attr(tag, "w");
        state.line_depth = state.line_depth + 1;
        if let Some(b) = &mut state.builder {
            b.has_line = true;
            if width.is_some() {
                b.line_width = width;
            }
        }
    } else {
        geometry_in(state, tag);
    }
}

fn text_event(state: &mut ScanState, text: &String)
    ensures
        *final(state) == scan_text(*old(state), text@),
{
    if state.in_position_offset && state.builder.is_some() {
        let trimmed = trimmed_chars(text.as_str());
        let digits = crate::text::string_from_chars(&trimmed, 0, trimmed.len());
        assert(trimmed@.subrange(0, trimmed@.len() as int) =~= trimmed@);
        if let Some(emu) = parse_i64(digits.as_str()) {
            match state.axis {
                PositionAxis::Horizontal => {
                    if let Some(b) = &mut state.builder {
                        b.offset_x = emu;
                    }
                },
                PositionAxis::Vertical => {
                    if let Some(b) = &mut state.builder {
                        b.offset_y = emu;
                    }
                },
                PositionAxis::Unset => {},
            }
        }
    }
}

fn end_tag(state: &mut ScanState, name: &String) -> (shape: Option<FloatingShape>)
    ensures
        (*final(state), shape) == scan_end(*old(state), name@),
{
    let name = name.as_str();
    if str_eq(name, "posOffset") {
        state.in_position_offset = false;
        None
    } else if str_eq(name, "positionH") || str_eq(name, "positionV") {
        state.axis = PositionAxis::Unset;
        None
    } else if str_eq(name, "spPr") && state.sppr_depth > 0 {
        state.sppr_depth = state.sppr_depth - 1;
        None
    } else if str_eq(name, "ln") && state.line_depth > 0 {
        state.line_depth = state.line_depth - 1;
        None
    } else if str_eq(name, "drawing") && state.drawing_depth > 0 {
        state.drawing_depth = state.drawing_depth - 1;
        if state.drawing_depth == 0 {
            let builder = state.builder;
            state.builder = None;
            match builder {
                Some(b) => b.finish(),
                None => None,
            }
        } else {
            None
        }
    } else {
        None
    }
}

/// Applies one event to the scanner state, returning the shape it completed.
pub fn scan_event(state: &mut ScanState, event: &XmlEvent) -> (shape: Option<FloatingShape>)
    requires
        old(state).drawing_depth < usize::MAX,
        old(state).sppr_depth < usize::MAX,
        old(state).line_depth < usize::MAX,
    ensures
        (*final(state), shape) == scan_step(*old(state), *event),
{
    match event {
        XmlEvent::Start(tag) => {
            start_tag(state, tag);
            None
        },
        XmlEvent::Empty(tag) => {
            geometry_in(state, tag);
            None
        },
        XmlEvent::Text(text) => {
            text_event(state, text);
            None
        },
        XmlEvent::End(name) => end_tag(state, name),
        _ => None,
    }
}

/// The geometry-only drawings of an XML event sequence, one `FloatingShape`
/// each, in document order; events after the first end of input or error are
/// ignored.
pub fn scan_shape_events(events: &Vec<XmlEvent>) -> (shapes: Vec<FloatingShape>)
    ensures
        shapes@ == drawing_shapes(events@),
{
    let mut state = ScanState {
        drawing_depth: 0,
        sppr_depth: 0,
        line_depth: 0,
        axis: PositionAxis::Unset,
        in_position_offset: false,
        builder: None,
    };
    let mut shapes: Vec<FloatingShape> = Vec::new();
    let mut i: usize = 0;
    while i < events.len()
        invariant
            i <= events@.len(),
            state.drawing_depth <= i,
            state.sppr_depth <= i,
            state.line_depth <= i,
            scan_events_from(events@, i as int, state, shapes@) == drawing_shapes(events@),
        decreases events@.len() - i,
    {
        let stop = match &events[i] {
            XmlEvent::Eof | XmlEvent::Error => true,
            _ => false,
        };
        if stop {
            return shapes;
        }
        if let Some(shape) = scan_event(&mut state, &events[i]) {
            shapes.push(shape);
        }
        i = i + 1;
    }
    shapes
}

/// Scans `word/document.xml` for geometry-only drawings, in document order:
/// `drawing_shapes` of the events read from it.
pub fn scan_drawing_shapes(xml: &str) -> (shapes: Vec<FloatingShape>)
    ensures
        shapes@ == drawing_shapes(xml_events_of(xml@)),
{
    let events = read_xml_events(xml);
    scan_shape_events(&events)
}

/// The shapes scanned from the document, handed out in order as the document
/// walk meets geometry-only drawings.
pub struct DrawingShapeContext {
    shapes: Vec<FloatingShape>,
    cursor: usize,
}

impl View for DrawingShapeContext {
    /// The shapes not handed out yet.
    type V = Seq<FloatingShape>;

    closed spec fn view(&self) -> Seq<FloatingShape> {
        if self.cursor < self.shapes@.len() { self.shapes@.skip(self.cursor as int) } else { Seq::empty() }
    }
}

impl DrawingShapeContext {
    /// A context over the shapes already scanned.
    pub fn from_shapes(shapes: Vec<FloatingShape>) -> (ctx: DrawingShapeContext)
        ensures
            ctx@ == shapes@,
    {
        let ctx = DrawingShapeContext { shapes, cursor: 0 };
        assert(ctx.shapes@.skip(0) =~= ctx.shapes@);
        ctx
    }

    /// A context over the shapes of `xml`, or over none without a document.
    pub fn from_xml(xml: Option<&str>) -> (ctx: DrawingShapeContext)
        ensures
            ctx@ == match xml {
                Some(text) => drawing_shapes(xml_events_of(text@)),
                None => Seq::<FloatingShape>::empty(),
            },
            ctx@ == context_shapes(opt_str_view(xml)),
    {
        match xml {
            Some(text) => DrawingShapeContext::from_shapes(scan_drawing_shapes(text)),
            None => DrawingShapeContext::from_shapes(Vec::new()),
        }
    }

    /// The next shape, or `None` once every shape has been handed out.
    pub fn consume_next(&mut self) -> (shape: Option<FloatingShape>)
        ensures
            old(self)@.len() == 0 ==> shape is None && final(self)@.len() == 0,
            old(self)@.len() > 0 ==> shape == Some(old(self)@[0]) && final(self)@ == old(self)@.drop_first(),
            (shape, final(self)@) == consume_step(old(self)@),
    {
        if self.cursor < self.shapes.len() {
            let shape = self.shapes[self.cursor];
            self.cursor = self.cursor + 1;
            assert(old(self)@.drop_first() =~= self@);
            Some(shape)
        } else {
            None
        }
    }
}

/// The shapes a context made by `from_xml` starts with: those scanned from
/// the document, none without one.
pub open spec fn context_shapes(xml: Option<Seq<char>>) -> Seq<FloatingShape> {
    match xml {
        Some(text) => drawing_shapes(xml_events_of(text)),
        None => Seq::empty(),
    }
}

/// What `consume_next` hands out when `remaining` are left, and what is left after.
pub open spec fn consume_step(remaining: Seq<FloatingShape>) -> (Option<FloatingShape>, Seq<FloatingShape>) {
    if remaining.len() == 0 { (None, Seq::empty()) } else { (Some(remaining[0]), remaining.drop_first()) }
}

/// The shapes left after `k` calls of `consume_next`.
pub open spec fn remaining_after(shapes: Seq<FloatingShape>, k: nat) -> Seq<FloatingShape>
    decreases k,
{
    if k == 0 { shapes } else { consume_step(remaining_after(shapes, (k - 1) as nat)).1 }
}

proof fn lemma_remaining_after(shapes: Seq<FloatingShape>, k: nat)
    ensures
        remaining_after(shapes, k) == (if k < shapes.len() { shapes.skip(k as int) } else { Seq::<FloatingShape>::empty() }),
    decreases k,
{
    if k == 0 {
        assert(shapes.skip(0) =~= shapes);
        if shapes.len() == 0 {
            assert(shapes =~= Seq::<FloatingShape>::empty());
        }
    } else {
        lemma_remaining_after(shapes, (k - 1) as nat);
        if k < shapes.len() {
            assert(shapes.skip((k - 1) as int).drop_first() =~= shapes.skip(k as int));
        } else if k - 1 < shapes.len() {
            assert(shapes.skip((k - 1) as int).drop_first() =~= Seq::<FloatingShape>::empty());
        }
    }
}

/// A context from `from_xml` hands out the document's shapes in order: call
/// number `k + 1` of `consume_next` returns shape `k` of the scan, and `None`
/// once every shape has been handed out (on every call without a document).
pub proof fn law_context_hands_out_scanned_shapes(xml: Option<Seq<char>>, k: nat)
    ensures
        consume_step(remaining_after(context_shapes(xml), k)).0 == (if k < context_shapes(xml).len() {
            Some(context_shapes(xml)[k as int])
        } else {
            None
        }),
{
    lemma_remaining_after(context_shapes(xml), k);
}

/// A line shape runs corner to corner across its box: its ends lie on
/// opposite sides, it starts at the right when flipped horizontally and at
/// the bottom when flipped vertically (a flipped-vertical line rises from
/// bottom-left to top-right), and at the top left otherwise.
pub proof fn law_line_runs_between_corners(b: ShapeBuilder)
    requires
        b.has_wsp,
        !b.has_text_box,
        b.preset == Some(PresetGeometry::Line),
    ensures
        finished_shape(b) matches Some(fs) && fs.shape.kind matches ShapeKind::Line { x1, y1, x2, y2, .. } && {
            &&& x1 + x2 == fs.width && (x1 == 0 || x2 == 0)
            &&& y1 + y2 == fs.height && (y1 == 0 || y2 == 0)
            &&& (b.flip_h ==> x1 == fs.width && x2 == 0) && (!b.flip_h ==> x1 == 0 && x2 == fs.width)
            &&& (b.flip_v ==> y1 == fs.height && y2 == 0) && (!b.flip_v ==> y1 == 0 && y2 == fs.height)
        },
{
}

} // verus!
