use raytracer::coordinate::is_coordinate;
use raytracer::mesh::Corners;
use raytracer::mesh::MeshOutline;
use raytracer::mesh::OffError;
use raytracer::mesh::OffErrorKind;
use raytracer::mesh::PolygonWinding;
use raytracer::text::Span;

const GOOD: &[u8] = b"OFF\n4 2 0\n0 0 0\n1.5 0 0\n0 -2.25e1 0\n.5 +1 inf\n3 0 1 2\n3 3 2 1\n";

fn parse_off(text: &[u8], winding: PolygonWinding) -> Result<MeshOutline, OffError> {
    MeshOutline::try_load_from_off(text, winding)
}

fn fault(line: usize, kind: OffErrorKind) -> Result<MeshOutline, OffError> {
    Err(OffError { line, kind })
}

fn word(text: &[u8], span: Span) -> &str {
    std::str::from_utf8(&text[span.start..span.end]).unwrap()
}

fn coordinates(text: &[u8], mesh: &MeshOutline) -> Vec<(f64, f64, f64)> {
    let mut out = Vec::new();
    for vertex in mesh.vertices.iter() {
        out.push((
            word(text, vertex.x).parse::<f64>().unwrap(),
            word(text, vertex.y).parse::<f64>().unwrap(),
            word(text, vertex.z).parse::<f64>().unwrap(),
        ));
    }
    out
}

#[test]
fn test_good_mesh() {
    let mesh = MeshOutline::try_load_from_off(GOOD, PolygonWinding::Clockwise);
    assert!(mesh.is_ok());
}

#[test]
fn test_bad_mesh() {
    let mesh = parse_off(b"OFF\n3 1\n0 0 0\n1 0 0\n0 1 0\n3 0 1 2\n", PolygonWinding::Clockwise);
    assert!(mesh.is_err());

    let mesh = parse_off(b"OFF\n3 1 3\n0 0 0\n1 0 0\n0 1 0\n3 0 1 2\n", PolygonWinding::Clockwise);
    assert!(mesh.is_err());

    let mesh = parse_off(b"OFF\n3 1 0\n0 0 0\n1 0\n0 1 0\n3 0 1 2\n", PolygonWinding::Clockwise);
    assert!(mesh.is_err());

    let mesh = parse_off(b"OFF\n3 1 0\n0 0 0\n1 0 0\n0 1 0\n", PolygonWinding::Clockwise);
    assert!(mesh.is_err());

    let mesh = parse_off(b"OFF\n3 1 0\n0 0 0\n1 0 zero\n0 1 0\n3 0 1 2\n", PolygonWinding::Clockwise);
    assert!(mesh.is_err());
}

#[test]
fn reads_vertices_and_faces() {
    let mesh = parse_off(GOOD, PolygonWinding::Clockwise).unwrap();
    assert_eq!(
        coordinates(GOOD, &mesh),
        vec![(0.0, 0.0, 0.0), (1.5, 0.0, 0.0), (0.0, -22.5, 0.0), (0.5, 1.0, f64::INFINITY)]
    );
    assert_eq!(mesh.faces, vec![Corners { a: 0, b: 1, c: 2 }, Corners { a: 3, b: 2, c: 1 }]);
    assert_eq!(word(GOOD, mesh.vertices[2].y), "-2.25e1");
    assert_eq!(word(GOOD, mesh.vertices[3].x), ".5");
}

#[test]
fn counter_clockwise_winding_swaps_two_corners() {
    let mesh = parse_off(GOOD, PolygonWinding::CounterClockwise).unwrap();
    assert_eq!(mesh.faces, vec![Corners { a: 0, b: 2, c: 1 }, Corners { a: 3, b: 1, c: 2 }]);
    assert_eq!(mesh.vertices.len(), 4);
}

#[test]
fn reads_a_mesh_with_blanks_and_carriage_returns() {
    let text = b"OFF\r\n 3\t1  0 \r\n0 0 0\r\n 1 0 0\r\n0 1 0\t\r\n  3 2 1 0\r\n";
    let mesh = parse_off(text, PolygonWinding::Clockwise).unwrap();
    assert_eq!(coordinates(text, &mesh), vec![(0.0, 0.0, 0.0), (1.0, 0.0, 0.0), (0.0, 1.0, 0.0)]);
    assert_eq!(mesh.faces, vec![Corners { a: 2, b: 1, c: 0 }]);
}

#[test]
fn reads_a_last_face_without_line_feed() {
    let mesh = parse_off(b"OFF\n1 1 0\n1 2 3\n3 0 0 0", PolygonWinding::Clockwise).unwrap();
    assert_eq!(mesh.faces, vec![Corners { a: 0, b: 0, c: 0 }]);
}

#[test]
fn refuses_a_text_without_keyword() {
    let winding = PolygonWinding::Clockwise;
    assert_eq!(parse_off(b"", winding), fault(0, OffErrorKind::Incomplete));
    assert_eq!(parse_off(b"OFF", winding), fault(1, OffErrorKind::Incomplete));
    assert_eq!(parse_off(b"OFF\n", winding), fault(1, OffErrorKind::Incomplete));
    assert_eq!(parse_off(b"off\n1 1 0\n", winding), fault(1, OffErrorKind::Keyword));
    assert_eq!(parse_off(b"COFF\n1 1 0\n", winding), fault(1, OffErrorKind::Keyword));
    assert_eq!(parse_off(b"OFF \n1 1 0\n", winding), fault(1, OffErrorKind::Keyword));
    assert_eq!(parse_off(b"\nOFF\n", winding), fault(1, OffErrorKind::Keyword));
    assert_eq!(parse_off(b"1 1 0\n", winding), fault(1, OffErrorKind::Keyword));
}

#[test]
fn refuses_a_faulty_header() {
    let winding = PolygonWinding::Clockwise;
    assert_eq!(parse_off(b"OFF\n1 1\n", winding), fault(2, OffErrorKind::HeaderLength));
    assert_eq!(parse_off(b"OFF\n1 1 0 0\n", winding), fault(2, OffErrorKind::HeaderLength));
    assert_eq!(parse_off(b"OFF\n\n", winding), fault(2, OffErrorKind::HeaderLength));
    assert_eq!(parse_off(b"OFF\nx 1 0\n", winding), fault(2, OffErrorKind::VertexCount));
    assert_eq!(parse_off(b"OFF\n4294967296 1 0\n", winding), fault(2, OffErrorKind::VertexCount));
    assert_eq!(parse_off(b"OFF\n1 -1 0\n", winding), fault(2, OffErrorKind::FaceCount));
    assert_eq!(parse_off(b"OFF\n1 1 none\n", winding), fault(2, OffErrorKind::EdgeCount));
    assert_eq!(parse_off(b"OFF\n1 1 1\n", winding), fault(2, OffErrorKind::Edges));
    assert_eq!(parse_off(b"OFF\n0 1 0\n", winding), fault(2, OffErrorKind::Empty));
    assert_eq!(parse_off(b"OFF\n1 0 0\n1 2 3\n", winding), fault(2, OffErrorKind::Empty));
    assert_eq!(parse_off(b"OFF\n0 0 0\n", winding), fault(2, OffErrorKind::Empty));
    assert_eq!(parse_off(b"OFF\n0 0 5\n", winding), fault(2, OffErrorKind::Edges));
}

#[test]
fn refuses_a_faulty_vertex() {
    let winding = PolygonWinding::Clockwise;
    assert_eq!(parse_off(b"OFF\n1 1 0\n1 2\n", winding), fault(3, OffErrorKind::VertexLength));
    assert_eq!(parse_off(b"OFF\n1 1 0\n1 2 3 4\n", winding), fault(3, OffErrorKind::VertexLength));
    assert_eq!(parse_off(b"OFF\n1 1 0\n\n1 2 3\n", winding), fault(3, OffErrorKind::VertexLength));
    assert_eq!(parse_off(b"OFF\n1 1 0\n1 2 x\n", winding), fault(3, OffErrorKind::Coordinate));
    assert_eq!(parse_off(b"OFF\n1 1 0\n1e 2 3\n", winding), fault(3, OffErrorKind::Coordinate));
    assert_eq!(parse_off(b"OFF\n2 1 0\n1 2 3\n1 . 3\n", winding), fault(4, OffErrorKind::Coordinate));
}

#[test]
fn refuses_a_faulty_face() {
    let winding = PolygonWinding::Clockwise;
    assert_eq!(parse_off(b"OFF\n1 1 0\n1 2 3\n\n", winding), fault(4, OffErrorKind::CornerCount));
    assert_eq!(parse_off(b"OFF\n1 1 0\n1 2 3\nx 0 0 0\n", winding), fault(4, OffErrorKind::CornerCount));
    assert_eq!(parse_off(b"OFF\n1 1 0\n1 2 3\n3 0 0\n", winding), fault(4, OffErrorKind::FaceLength));
    assert_eq!(parse_off(b"OFF\n1 1 0\n1 2 3\n3 0 0 0 0\n", winding), fault(4, OffErrorKind::FaceLength));
    assert_eq!(parse_off(b"OFF\n1 1 0\n1 2 3\n4 0 0 0 0\n", winding), fault(4, OffErrorKind::NotTriangle));
    assert_eq!(parse_off(b"OFF\n1 1 0\n1 2 3\n2 0 0\n", winding), fault(4, OffErrorKind::NotTriangle));
    assert_eq!(parse_off(b"OFF\n1 1 0\n1 2 3\n0\n", winding), fault(4, OffErrorKind::NotTriangle));
    assert_eq!(parse_off(b"OFF\n1 1 0\n1 2 3\n3 0 0 1\n", winding), fault(4, OffErrorKind::Corner));
    assert_eq!(parse_off(b"OFF\n1 1 0\n1 2 3\n3 -0 0 0\n", winding), fault(4, OffErrorKind::Corner));
    assert_eq!(parse_off(b"OFF\n2 1 0\n1 2 3\n1 2 3\n3 0 2 1\n", winding), fault(5, OffErrorKind::Corner));
    assert_eq!(
        parse_off(b"OFF\n1 1 0\n1 2 3\n3 0 99999999999999999999999 0\n", winding), fault(4, OffErrorKind::Corner)
    );
}

#[test]
fn refuses_too_many_or_too_few_lines() {
    let winding = PolygonWinding::Clockwise;
    assert_eq!(parse_off(b"OFF\n1 1 0\n", winding), fault(2, OffErrorKind::Incomplete));
    assert_eq!(parse_off(b"OFF\n1 1 0\n1 2 3\n", winding), fault(3, OffErrorKind::Incomplete));
    assert_eq!(parse_off(b"OFF\n2 1 0\n1 2 3\n", winding), fault(3, OffErrorKind::Incomplete));
    assert_eq!(parse_off(b"OFF\n1 2 0\n1 2 3\n3 0 0 0\n", winding), fault(4, OffErrorKind::Incomplete));
    assert_eq!(parse_off(b"OFF\n1 1 0\n1 2 3\n3 0 0 0\n\n", winding), fault(5, OffErrorKind::ExtraLine));
    assert_eq!(
        parse_off(b"OFF\n1 1 0\n1 2 3\n3 0 0 0\n3 0 0 0\n", winding), fault(5, OffErrorKind::ExtraLine)
    );
}

#[test]
fn every_mesh_fault_has_its_message() {
    assert_eq!(OffErrorKind::Keyword.message(), "Cannot find OFF keyword");
    assert_eq!(OffErrorKind::HeaderLength.message(), "Header has to consist of 3 elements");
    assert_eq!(OffErrorKind::VertexCount.message(), "Cannot parse the number of vertices");
    assert_eq!(OffErrorKind::FaceCount.message(), "Cannot parse the number of faces");
    assert_eq!(OffErrorKind::EdgeCount.message(), "Cannot parse the number of edges");
    assert_eq!(OffErrorKind::Edges.message(), "The OFF loader only supports numEdges == 0");
    assert_eq!(OffErrorKind::Empty.message(), "A mesh needs at least one vertex and one face");
    assert_eq!(OffErrorKind::VertexLength.message(), "Vertices need to have exactly 3 coordinates");
    assert_eq!(OffErrorKind::Coordinate.message(), "Cannot parse a coordinate");
    assert_eq!(OffErrorKind::CornerCount.message(), "Cannot parse the number of corners of a face");
    assert_eq!(
        OffErrorKind::FaceLength.message(),
        "A face has another number of corners than it says"
    );
    assert_eq!(
        OffErrorKind::NotTriangle.message(),
        "The OFF loader only supports faces with 3 corners"
    );
    assert_eq!(OffErrorKind::Corner.message(), "A corner of a face is not a vertex of the mesh");
    assert_eq!(OffErrorKind::ExtraLine.message(), "There are more lines than vertices and faces");
    assert_eq!(OffErrorKind::Incomplete.message(), "The mesh ends before its last face");
}

#[test]
fn a_word_is_a_coordinate_where_it_reads_as_a_number() {
    let words = [
        "0", "1.5", "-1.5", "+.5", "5.", ".", "", "+", "-", "e5", "1e5", "1E5", "1e+5", "1e-5",
        "1e", "1e+", "1e-", "1.e3", ".e3", ".5e3", "1.5.2", "inf", "-inf", "+Infinity", "INFINITY",
        "nan", "NaN", "-nan", "+NAN", "infinit", "infinityy", "in", "nanx", "na", "0x10", "1_0",
        " 1", "1 ", "1f", "1e5.0", "..1", "1..", "--1", "+-1", "-+1", "Inf", "iNf", "1e0005",
        "000.000", "1,5", "12345678901234567890123456789", "1e999", "-0", "-.0e-0", "e", "E1",
        "1ee1", "1e1e1", "+e1", "-.e1", "i", "n", "infinity1", "1inf", "9.", "9.e", "9.e1", "١",
        "1.0\u{a0}", "0.1", "-1", "+1", "123.456e-789", "1E+", "1E-2", ".E2", "+.", "-.",
    ];
    for w in words {
        let expected = w.parse::<f64>().is_ok();
        assert_eq!(is_coordinate(w.as_bytes()), expected, "{:?}", w);
    }
}

#[test]
fn a_vertex_is_read_where_its_words_read_as_numbers() {
    let words = [
        "0", "1.5", "-1.5", "+.5", "5.", ".", "+", "-", "e5", "1e5", "1E5", "1e+5", "1e-5", "1e",
        "1e+", "1.e3", ".e3", "1.5.2", "inf", "-inf", "+Infinity", "nan", "NaN", "infinit",
        "0x10", "1_0", "1f", "--1", "1e0005", "1,5", "1e999", "-0",
    ];
    for w in words {
        let text = format!("OFF\n1 1 0\n0 {} 0\n3 0 0 0\n", w);
        let expected = w.parse::<f64>().is_ok();
        let read = parse_off(text.as_bytes(), PolygonWinding::Clockwise);
        if expected {
            let mesh = read.unwrap();
            assert_eq!(word(text.as_bytes(), mesh.vertices[0].y), w);
        } else {
            assert_eq!(read, fault(3, OffErrorKind::Coordinate), "{:?}", w);
        }
    }
}

