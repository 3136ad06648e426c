use office2pdf::sections::{insert_part_reference, scan_header_footer_relationships, PartReference};
use office2pdf::shape::{scan_drawing_shapes, DrawingShapeContext, DEFAULT_STROKE_WIDTH_EMU};
use office2pdf::ir::{ArrowHead, ShapeKind};

const RELS: &str = r#"<?xml version="1.0" encoding="UTF-8" standalone="yes"?>
<Relationships xmlns="http://schemas.openxmlformats.org/package/2006/relationships">
<Relationship Id="rId1" Type="http://schemas.openxmlformats.org/officeDocument/2006/relationships/styles" Target="styles.xml"/>
<Relationship Id="rId7" Type="http://schemas.openxmlformats.org/officeDocument/2006/relationships/header" Target="header1.xml"/>
<Relationship Id="rId8" Type="http://schemas.openxmlformats.org/officeDocument/2006/relationships/footer" Target="/word/footer1.xml"/>
<Relationship Id="rId9" Type="http://schemas.openxmlformats.org/officeDocument/2006/relationships/header" Target="header&amp;2.xml"/>
</Relationships>"#;

fn pairs(refs: &[PartReference]) -> Vec<(String, String)> {
    refs.iter().map(|r| (r.id.clone(), r.path.clone())).collect()
}

#[test]
fn relationships_name_header_and_footer_parts() {
    let (headers, footers) = scan_header_footer_relationships(RELS);
    assert_eq!(
        pairs(&headers),
        vec![
            ("rId7".to_string(), "word/header1.xml".to_string()),
            ("rId9".to_string(), "word/header&2.xml".to_string()),
        ]
    );
    assert_eq!(pairs(&footers), vec![("rId8".to_string(), "word/footer1.xml".to_string())]);
}

#[test]
fn relationships_need_id_target_and_type() {
    let xml = r#"<Relationships><Relationship Id="a" Type="x/header"/><Relationship Target="t.xml" Type="x/footer"/></Relationships>"#;
    let (headers, footers) = scan_header_footer_relationships(xml);
    assert!(headers.is_empty());
    assert!(footers.is_empty());
}

#[test]
fn repeated_relationship_id_keeps_latest_target() {
    let xml = r#"<Relationships><Relationship Id="h" Type="x/header" Target="one.xml"/><Relationship Id="h" Type="x/header" Target="two.xml"/></Relationships>"#;
    let (headers, _) = scan_header_footer_relationships(xml);
    assert_eq!(pairs(&headers), vec![("h".to_string(), "word/two.xml".to_string())]);
}

#[test]
fn insert_part_reference_replaces_in_place() {
    let mut refs: Vec<PartReference> = Vec::new();
    insert_part_reference(&mut refs, "a".to_string(), "p1".to_string());
    insert_part_reference(&mut refs, "b".to_string(), "p2".to_string());
    insert_part_reference(&mut refs, "a".to_string(), "p3".to_string());
    assert_eq!(pairs(&refs), vec![("a".to_string(), "p3".to_string()), ("b".to_string(), "p2".to_string())]);
}

#[test]
fn malformed_relationships_stop_at_the_error() {
    let xml = r#"<Relationships><Relationship Id="h" Type="x/header" Target="one.xml"/></Oops><Relationship Id="k" Type="x/header" Target="two.xml"/>"#;
    let (headers, _) = scan_header_footer_relationships(xml);
    assert_eq!(pairs(&headers), vec![("h".to_string(), "word/one.xml".to_string())]);
}

fn doc(inner: &str) -> String {
    format!(
        r#"<w:document xmlns:w="w" xmlns:wp="wp" xmlns:a="a" xmlns:wps="wps"><w:body><w:p><w:r>{inner}</w:r></w:p></w:body></w:document>"#
    )
}

#[test]
fn ellipse_with_flips_and_default_outline() {
    let xml = doc(
        r#"<w:drawing><wp:anchor><wp:extent cx="100" cy="50"/><wps:wsp><wps:spPr><a:prstGeom prst="ellipse"/><a:ln><a:solidFill><a:srgbClr val="FF0000"/></a:solidFill></a:ln></wps:spPr></wps:wsp></wp:anchor></w:drawing>"#,
    );
    let shapes = scan_drawing_shapes(&xml);
    assert_eq!(shapes.len(), 1);
    assert_eq!(shapes[0].shape.kind, ShapeKind::Ellipse);
    assert_eq!(shapes[0].width, 100);
    assert_eq!(shapes[0].height, 50);
    assert!(shapes[0].shape.fill.is_none());
    let stroke = shapes[0].shape.stroke.expect("outline");
    assert_eq!(stroke.width_emu, DEFAULT_STROKE_WIDTH_EMU);
    assert_eq!((stroke.color.r, stroke.color.g, stroke.color.b), (255, 0, 0));
}

#[test]
fn flipped_line_runs_the_other_diagonal() {
    let xml = doc(
        r#"<w:drawing><wp:anchor><wp:extent cx="300" cy="200"/><wps:wsp><wps:spPr><a:xfrm flipH="1"/><a:prstGeom prst="straightConnector1"/><a:ln w="12700"><a:headEnd type="triangle"/><a:tailEnd type="none"/></a:ln></wps:spPr></wps:wsp></wp:anchor></w:drawing>"#,
    );
    let shapes = scan_drawing_shapes(&xml);
    assert_eq!(shapes.len(), 1);
    assert_eq!(
        shapes[0].shape.kind,
        ShapeKind::Line { x1: 300, y1: 0, x2: 0, y2: 200, head_end: ArrowHead::Triangle, tail_end: ArrowHead::Flat }
    );
    let stroke = shapes[0].shape.stroke.expect("outline");
    assert_eq!(stroke.width_emu, 12700);
    assert_eq!((stroke.color.r, stroke.color.g, stroke.color.b), (0, 0, 0));
}

#[test]
fn shape_without_fill_or_outline_is_skipped() {
    let xml = doc(
        r#"<w:drawing><wp:anchor><wps:wsp><wps:spPr><a:prstGeom prst="rect"/><a:noFill/></wps:spPr></wps:wsp></wp:anchor></w:drawing>"#,
    );
    assert!(scan_drawing_shapes(&xml).is_empty());
}

#[test]
fn round_rectangle_and_first_fill_color_wins() {
    let xml = doc(
        r#"<w:drawing><wp:anchor><wp:positionH><wp:posOffset> -25400 </wp:posOffset></wp:positionH><wps:wsp><wps:spPr><a:prstGeom prst="roundRect"/><a:solidFill><a:srgbClr val="00ff00"/><a:srgbClr val="0000ff"/></a:solidFill></wps:spPr></wps:wsp></wp:anchor></w:drawing>"#,
    );
    let shapes = scan_drawing_shapes(&xml);
    assert_eq!(shapes.len(), 1);
    match shapes[0].shape.kind {
        ShapeKind::RoundedRectangle { radius_fraction } => {
            assert_eq!((radius_fraction.units(), radius_fraction.scale()), (1, 1));
        },
        other => panic!("expected a rounded rectangle, got {other:?}"),
    }
    let fill = shapes[0].shape.fill.expect("fill");
    assert_eq!((fill.r, fill.g, fill.b), (0, 255, 0));
    assert_eq!(shapes[0].offset_x, -25400);
    assert_eq!(shapes[0].offset_y, 0);
    assert!(shapes[0].shape.stroke.is_none());
}

#[test]
fn context_without_document_has_no_shapes() {
    let mut ctx = DrawingShapeContext::from_xml(None);
    assert!(ctx.consume_next().is_none());
    assert!(ctx.consume_next().is_none());
}

#[test]
fn relationship_values_keep_their_whitespace() {
    let rels = "<Relationships><Relationship Id=\"rId3\" Type=\"x/header\" Target=\"a\tb&#10;c.xml\"/></Relationships>";
    let (headers, _) = scan_header_footer_relationships(rels);
    assert_eq!(pairs(&headers), vec![("rId3".to_string(), "word/a\tb\nc.xml".to_string())]);
}
