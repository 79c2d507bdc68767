//! The plain-text mesh format: a line `OFF`, a line with the numbers of
//! vertices, faces and edges, then one line per vertex with its three
//! coordinates, then one line per face with the number of its corners and the
//! vertices they are.

use crate::coordinate::is_coordinate_at;
use crate::coordinate::writes_coordinate;
use crate::text::Span;
use crate::text::lines;
use crate::text::number;
use crate::text::number_up_to;
use crate::text::parse_number;
use crate::text::read_line;
use crate::text::split_words;
use crate::text::words;
use vstd::prelude::*;

verus! {

/// The order in which the corners of a face are listed, seen from outside.
#[derive(Clone, Copy, Debug, PartialEq, Eq, Structural)]
pub enum PolygonWinding {
    Clockwise,
    CounterClockwise,
}

/// The three vertices of a triangle, each as its place among the vertices of
/// the mesh.
#[derive(Clone, Copy, Debug, PartialEq, Eq, Structural)]
pub struct Corners {
    pub a: usize,
    pub b: usize,
    pub c: usize,
}

/// Where the three coordinates of a vertex stand in the text of a mesh.
#[derive(Clone, Copy, Debug, PartialEq, Eq, Structural)]
pub struct VertexText {
    pub x: Span,
    pub y: Span,
    pub z: Span,
}

/// What is wrong with a line of a text that is not a mesh.
#[derive(Clone, Copy, Debug, PartialEq, Eq, Structural)]
pub enum OffErrorKind {
    /// The first line is not `OFF`.
    Keyword,
    /// The second line does not hold exactly three words.
    HeaderLength,
    /// The number of vertices is not a number of 32 bits.
    VertexCount,
    /// The number of faces is not a number of 32 bits.
    FaceCount,
    /// The number of edges is not a number of 32 bits.
    EdgeCount,
    /// The number of edges is not zero.
    Edges,
    /// The mesh has no vertex or no face.
    Empty,
    /// A vertex line does not hold exactly three words.
    VertexLength,
    /// A word of a vertex line is not a coordinate.
    Coordinate,
    /// A face line is empty, or it does not start with a number of 32 bits.
    CornerCount,
    /// A face line does not hold as many corners as it announces.
    FaceLength,
    /// A face is not a triangle.
    NotTriangle,
    /// A corner is not the number of a vertex of the mesh.
    Corner,
    /// A line follows the last face.
    ExtraLine,
    /// The text ends before the last face.
    Incomplete,
}

/// Why a text is not a mesh: the number of the line at fault, counted from 1,
/// and what is wrong with it. For a text that ends too early the line is its
/// last one, or 0 where it has none.
#[derive(Clone, Copy, Debug, PartialEq, Eq, Structural)]
pub struct OffError {
    pub line: usize,
    pub kind: OffErrorKind,
}

/// A fault of a text that is not a mesh, with the number of its line.
pub struct OffFault {
    pub line: nat,
    pub kind: OffErrorKind,
}

impl View for OffError {
    type V = OffFault;

    open spec fn view(&self) -> OffFault {
        OffFault { line: self.line as nat, kind: self.kind }
    }
}

impl OffError {
    /// The fault in words, without the number of the line.
    pub fn message(&self) -> (s: String)
        ensures
            s@ == self.kind.text(),
    {
        self.kind.message()
    }
}

impl OffErrorKind {
    /// What `message` says.
    pub open spec fn text(self) -> Seq<char> {
        match self {
            OffErrorKind::Keyword => "Cannot find OFF keyword"@,
            OffErrorKind::HeaderLength => "Header has to consist of 3 elements"@,
            OffErrorKind::VertexCount => "Cannot parse the number of vertices"@,
            OffErrorKind::FaceCount => "Cannot parse the number of faces"@,
            OffErrorKind::EdgeCount => "Cannot parse the number of edges"@,
            OffErrorKind::Edges => "The OFF loader only supports numEdges == 0"@,
            OffErrorKind::Empty => "A mesh needs at least one vertex and one face"@,
            OffErrorKind::VertexLength => "Vertices need to have exactly 3 coordinates"@,
            OffErrorKind::Coordinate => "Cannot parse a coordinate"@,
            OffErrorKind::CornerCount => "Cannot parse the number of corners of a face"@,
            OffErrorKind::FaceLength => "A face has another number of corners than it says"@,
            OffErrorKind::NotTriangle => "The OFF loader only supports faces with 3 corners"@,
            OffErrorKind::Corner => "A corner of a face is not a vertex of the mesh"@,
            OffErrorKind::ExtraLine => "There are more lines than vertices and faces"@,
            OffErrorKind::Incomplete => "The mesh ends before its last face"@,
        }
    }

    /// The fault in words.
    pub fn message(&self) -> (s: String)
        ensures
            s@ == self.text(),
    {
        match self {
            OffErrorKind::Keyword => "Cannot find OFF keyword".to_owned(),
            OffErrorKind::HeaderLength => "Header has to consist of 3 elements".to_owned(),
            OffErrorKind::VertexCount => "Cannot parse the number of vertices".to_owned(),
            OffErrorKind::FaceCount => "Cannot parse the number of faces".to_owned(),
            OffErrorKind::EdgeCount => "Cannot parse the number of edges".to_owned(),
            OffErrorKind::Edges => "The OFF loader only supports numEdges == 0".to_owned(),
            OffErrorKind::Empty => "A mesh needs at least one vertex and one face".to_owned(),
            OffErrorKind::VertexLength => "Vertices need to have exactly 3 coordinates".to_owned(),
            OffErrorKind::Coordinate => "Cannot parse a coordinate".to_owned(),
            OffErrorKind::CornerCount => "Cannot parse the number of corners of a face".to_owned(),
            OffErrorKind::FaceLength => "A face has another number of corners than it says".to_owned(),
            OffErrorKind::NotTriangle => "The OFF loader only supports faces with 3 corners".to_owned(),
            OffErrorKind::Corner => "A corner of a face is not a vertex of the mesh".to_owned(),
            OffErrorKind::ExtraLine => "There are more lines than vertices and faces".to_owned(),
            OffErrorKind::Incomplete => "The mesh ends before its last face".to_owned(),
        }
    }
}

/// What the text of a mesh says: the three coordinates of each vertex as they
/// are written, and the corners of each face.
pub struct Outline {
    pub vertices: Seq<Seq<Seq<u8>>>,
    pub faces: Seq<Corners>,
}

/// The letter `O`.
pub const LETTER_O: u8 = 79;

/// The letter `F`.
pub const LETTER_F: u8 = 70;

/// The first line of every mesh.
pub open spec fn keyword() -> Seq<u8> {
    seq![LETTER_O, LETTER_F, LETTER_F]
}

/// The fault of a vertex line, if it has one.
pub open spec fn vertex_fault(line: Seq<u8>) -> Option<OffErrorKind> {
    let w = words(line);
    if w.len() != 3 {
        Some(OffErrorKind::VertexLength)
    } else if !writes_coordinate(w[0]) || !writes_coordinate(w[1]) || !writes_coordinate(w[2]) {
        Some(OffErrorKind::Coordinate)
    } else {
        None
    }
}

/// A word names a vertex of a mesh with `vertices` vertices.
pub open spec fn names_vertex(word: Seq<u8>, vertices: nat) -> bool {
    number(word) matches Some(v) && v < vertices
}

/// The fault of a face line of a mesh with `vertices` vertices, if it has one.
pub open spec fn face_fault(line: Seq<u8>, vertices: nat) -> Option<OffErrorKind> {
    let w = words(line);
    if w.len() == 0 || number_up_to(w[0], u32::MAX as nat) is None {
        Some(OffErrorKind::CornerCount)
    } else if number(w[0]).unwrap() != w.len() - 1 {
        Some(OffErrorKind::FaceLength)
    } else if w.len() != 4 {
        Some(OffErrorKind::NotTriangle)
    } else if !names_vertex(w[1], vertices) || !names_vertex(w[2], vertices) || !names_vertex(
        w[3],
        vertices,
    ) {
        Some(OffErrorKind::Corner)
    } else {
        None
    }
}

/// The corners that a face line gives. With clockwise winding they are kept
/// in the order of the line; otherwise the second and the third change places.
pub open spec fn corners_of(line: Seq<u8>, winding: PolygonWinding) -> Corners {
    let w = words(line);
    let first = number(w[1]).unwrap() as usize;
    let second = number(w[2]).unwrap() as usize;
    let third = number(w[3]).unwrap() as usize;
    match winding {
        PolygonWinding::Clockwise => Corners { a: first, b: second, c: third },
        PolygonWinding::CounterClockwise => Corners { a: first, b: third, c: second },
    }
}

/// The fault of line `k` of the lines that follow the header, counted from 0,
/// if it has one. The first `vertices` of these lines are vertex lines and the
/// next `faces` are face lines; any line after those is a fault.
pub open spec fn body_fault(body: Seq<Seq<u8>>, vertices: nat, faces: nat, k: int) -> Option<
    OffErrorKind,
> {
    if k < vertices {
        vertex_fault(body[k])
    } else if k < vertices + faces {
        face_fault(body[k], vertices)
    } else {
        Some(OffErrorKind::ExtraLine)
    }
}

/// The first line at fault among the lines that follow the header, from line
/// `k` on, if there is one.
pub open spec fn first_body_fault(body: Seq<Seq<u8>>, vertices: nat, faces: nat, k: int) -> Option<
    int,
>
    decreases body.len() - k,
{
    if k >= body.len() {
        None
    } else if body_fault(body, vertices, faces, k) is Some {
        Some(k)
    } else {
        first_body_fault(body, vertices, faces, k + 1)
    }
}

/// The mesh that the lines after the two header lines describe, or their
/// first fault.
pub open spec fn body_outline(
    body: Seq<Seq<u8>>,
    vertices: nat,
    faces: nat,
    winding: PolygonWinding,
) -> Result<Outline, OffFault> {
    match first_body_fault(body, vertices, faces, 0) {
        Some(k) => Err(
            OffFault {
                line: (k + 3) as nat,
                kind: body_fault(body, vertices, faces, k).unwrap(),
            },
        ),
        None => if body.len() < vertices + faces {
            Err(OffFault { line: body.len() + 2, kind: OffErrorKind::Incomplete })
        } else {
            Ok(
                Outline {
                    vertices: Seq::new(vertices, |i: int| words(body[i])),
                    faces: Seq::new(faces, |i: int| corners_of(body[vertices + i], winding)),
                },
            )
        },
    }
}

/// The numbers of vertices and of faces that the second line of a mesh gives,
/// or its fault.
pub open spec fn mesh_size(line: Seq<u8>) -> Result<(nat, nat), OffErrorKind> {
    let head = words(line);
    if head.len() != 3 {
        Err(OffErrorKind::HeaderLength)
    } else if number_up_to(head[0], u32::MAX as nat) is None {
        Err(OffErrorKind::VertexCount)
    } else if number_up_to(head[1], u32::MAX as nat) is None {
        Err(OffErrorKind::FaceCount)
    } else if number_up_to(head[2], u32::MAX as nat) is None {
        Err(OffErrorKind::EdgeCount)
    } else if number(head[2]).unwrap() != 0 {
        Err(OffErrorKind::Edges)
    } else if number(head[0]).unwrap() == 0 || number(head[1]).unwrap() == 0 {
        Err(OffErrorKind::Empty)
    } else {
        Ok((number(head[0]).unwrap(), number(head[1]).unwrap()))
    }
}

/// The lines of a mesh after its two header lines.
pub open spec fn body_lines(all: Seq<Seq<u8>>) -> Seq<Seq<u8>> {
    if all.len() > 2 {
        all.skip(2)
    } else {
        Seq::empty()
    }
}

/// The mesh that a text describes, or the first fault that keeps it from
/// describing one.
pub open spec fn off_outline(text: Seq<u8>, winding: PolygonWinding) -> Result<Outline, OffFault> {
    let all = lines(text);
    if all.len() == 0 {
        Err(OffFault { line: 0, kind: OffErrorKind::Incomplete })
    } else if all[0] != keyword() {
        Err(OffFault { line: 1, kind: OffErrorKind::Keyword })
    } else if all.len() == 1 {
        Err(OffFault { line: 1, kind: OffErrorKind::Incomplete })
    } else {
        match mesh_size(all[1]) {
            Err(kind) => Err(OffFault { line: 2, kind }),
            Ok((vertices, faces)) => body_outline(body_lines(all), vertices, faces, winding),
        }
    }
}

/// A mesh as it was read from a text: where the coordinates of each vertex
/// stand in that text, and the corners of each face.
#[derive(Clone, Debug, PartialEq, Eq)]
pub struct MeshOutline {
    pub vertices: Vec<VertexText>,
    pub faces: Vec<Corners>,
}

impl VertexText {
    /// The three coordinates as `text` writes them.
    pub open spec fn of(self, text: Seq<u8>) -> Seq<Seq<u8>> {
        seq![self.x.of(text), self.y.of(text), self.z.of(text)]
    }

    /// The three words lie inside a text of `len` bytes.
    pub open spec fn inside(self, len: nat) -> bool {
        &&& self.x.within(0, len as int)
        &&& self.y.within(0, len as int)
        &&& self.z.within(0, len as int)
    }
}

impl Corners {
    /// Each corner is one of `vertices` vertices.
    pub open spec fn inside(self, vertices: nat) -> bool {
        self.a < vertices && self.b < vertices && self.c < vertices
    }
}

impl MeshOutline {
    /// What the outline says of `text`.
    pub open spec fn of(&self, text: Seq<u8>) -> Outline {
        Outline {
            vertices: Seq::new(self.vertices.len() as nat, |i: int| self.vertices[i].of(text)),
            faces: self.faces@,
        }
    }

    /// The outline fits a text of `len` bytes: every coordinate lies in the
    /// text, and every corner is a vertex of the outline.
    pub open spec fn wf(&self, len: nat) -> bool {
        &&& forall|i: int|
            0 <= i < self.vertices.len() ==> (#[trigger] self.vertices[i]).inside(len)
        &&& forall|i: int|
            0 <= i < self.faces.len() ==> (#[trigger] self.faces[i]).inside(
                self.vertices.len() as nat,
            )
    }
}

/// Tells whether a line is the first line of a mesh.
fn is_keyword(text: &[u8], line: Span) -> (r: bool)
    requires
        line.start <= line.end <= text.len(),
    ensures
        r == (line.of(text@) == keyword()),
{
    let r = line.end - line.start == 3 && text[line.start] == LETTER_O && text[line.start + 1]
        == LETTER_F && text[line.start + 2] == LETTER_F;
    proof {
        assert(keyword().len() == 3);
        if r {
            assert(line.of(text@) =~= keyword());
        } else if line.end - line.start == 3 {
            assert(line.of(text@)[0] == text@[line.start as int]);
            assert(line.of(text@)[1] == text@[line.start + 1]);
            assert(line.of(text@)[2] == text@[line.start + 2]);
        }
    }
    r
}

/// Reads a vertex line.
fn read_vertex(text: &[u8], line: Span) -> (r: Result<VertexText, OffErrorKind>)
    requires
        line.start <= line.end <= text.len(),
    ensures
        match r {
            Ok(v) => {
                &&& vertex_fault(line.of(text@)) is None
                &&& v.of(text@) == words(line.of(text@))
                &&& v.inside(text@.len())
            },
            Err(e) => vertex_fault(line.of(text@)) == Some(e),
        },
{
    let spans = split_words(text, line);
    if spans.len() != 3 {
        return Err(OffErrorKind::VertexLength);
    }
    let vertex = VertexText { x: spans[0], y: spans[1], z: spans[2] };
    assert(vertex.x.within(line.start as int, line.end as int));
    assert(vertex.y.within(line.start as int, line.end as int));
    assert(vertex.z.within(line.start as int, line.end as int));
    if !is_coordinate_at(text, vertex.x) || !is_coordinate_at(text, vertex.y) || !is_coordinate_at(
        text,
        vertex.z,
    ) {
        return Err(OffErrorKind::Coordinate);
    }
    assert(vertex.of(text@) =~= words(line.of(text@)));
    Ok(vertex)
}

/// Reads one corner of a face of a mesh with `vertices` vertices.
fn read_corner(text: &[u8], word: Span, vertices: u32) -> (r: Option<usize>)
    requires
        word.start <= word.end <= text.len(),
        vertices >= 1,
    ensures
        r is Some <==> names_vertex(word.of(text@), vertices as nat),
        r is Some ==> r.unwrap() == number(word.of(text@)).unwrap() && r.unwrap() < vertices,
{
    match parse_number(text, word, (vertices - 1) as u64) {
        Some(v) => Some(v as usize),
        None => None,
    }
}

/// Reads a face line of a mesh with `vertices` vertices.
fn read_face(text: &[u8], line: Span, vertices: u32, winding: PolygonWinding) -> (r: Result<
    Corners,
    OffErrorKind,
>)
    requires
        line.start <= line.end <= text.len(),
        vertices >= 1,
    ensures
        match r {
            Ok(corners) => {
                &&& face_fault(line.of(text@), vertices as nat) is None
                &&& corners == corners_of(line.of(text@), winding)
                &&& corners.inside(vertices as nat)
            },
            Err(e) => face_fault(line.of(text@), vertices as nat) == Some(e),
        },
{
    let spans = split_words(text, line);
    if spans.len() == 0 {
        return Err(OffErrorKind::CornerCount);
    }
    assert(spans[0].within(line.start as int, line.end as int));
    let count = match parse_number(text, spans[0], u32::MAX as u64) {
        Some(v) => v,
        None => {
            return Err(OffErrorKind::CornerCount);
        },
    };
    if count != (spans.len() - 1) as u64 {
        return Err(OffErrorKind::FaceLength);
    }
    if spans.len() != 4 {
        return Err(OffErrorKind::NotTriangle);
    }
    assert(spans[1].within(line.start as int, line.end as int));
    assert(spans[2].within(line.start as int, line.end as int));
    assert(spans[3].within(line.start as int, line.end as int));
    let first = match read_corner(text, spans[1], vertices) {
        Some(v) => v,
        None => {
            return Err(OffErrorKind::Corner);
        },
    };
    let second = match read_corner(text, spans[2], vertices) {
        Some(v) => v,
        None => {
            return Err(OffErrorKind::Corner);
        },
    };
    let third = match read_corner(text, spans[3], vertices) {
        Some(v) => v,
        None => {
            return Err(OffErrorKind::Corner);
        },
    };
    Ok(
        match winding {
            PolygonWinding::Clockwise => Corners { a: first, b: second, c: third },
            PolygonWinding::CounterClockwise => Corners { a: first, b: third, c: second },
        },
    )
}

/// Reads the line that gives the numbers of vertices and of faces.
fn read_size(text: &[u8], line: Span) -> (r: Result<(u32, u32), OffErrorKind>)
    requires
        line.start <= line.end <= text.len(),
    ensures
        match r {
            Ok((vertices, faces)) => {
                &&& mesh_size(line.of(text@)) == Ok::<(nat, nat), OffErrorKind>(
                    (vertices as nat, faces as nat),
                )
                &&& vertices >= 1
                &&& faces >= 1
            },
            Err(e) => mesh_size(line.of(text@)) == Err::<(nat, nat), OffErrorKind>(e),
        },
{
    let head = split_words(text, line);
    if head.len() != 3 {
        return Err(OffErrorKind::HeaderLength);
    }
    assert(head[0].within(line.start as int, line.end as int));
    assert(head[1].within(line.start as int, line.end as int));
    assert(head[2].within(line.start as int, line.end as int));
    let vertices = match parse_number(text, head[0], u32::MAX as u64) {
        Some(v) => v as u32,
        None => {
            return Err(OffErrorKind::VertexCount);
        },
    };
    let faces = match parse_number(text, head[1], u32::MAX as u64) {
        Some(v) => v as u32,
        None => {
            return Err(OffErrorKind::FaceCount);
        },
    };
    let edges = match parse_number(text, head[2], u32::MAX as u64) {
        Some(v) => v,
        None => {
            return Err(OffErrorKind::EdgeCount);
        },
    };
    if edges != 0 {
        return Err(OffErrorKind::Edges);
    }
    if vertices == 0 || faces == 0 {
        return Err(OffErrorKind::Empty);
    }
    Ok((vertices, faces))
}

/// Reads the vertex lines and the face lines of a mesh, which start at
/// `start`, after the two header lines.
fn read_body(
    text: &[u8],
    start: usize,
    vertex_count: u32,
    face_count: u32,
    winding: PolygonWinding,
) -> (r: Result<MeshOutline, OffError>)
    requires
        2 <= start <= text.len(),
        vertex_count >= 1,
        face_count >= 1,
    ensures
        match r {
            Ok(mesh) => {
                &&& body_outline(
                    lines(text@.skip(start as int)),
                    vertex_count as nat,
                    face_count as nat,
                    winding,
                ) == Ok::<Outline, OffFault>(mesh.of(text@))
                &&& mesh.wf(text@.len())
            },
            Err(e) => body_outline(
                lines(text@.skip(start as int)),
                vertex_count as nat,
                face_count as nat,
                winding,
            ) == Err::<Outline, OffFault>(e@),
        },
{
    let ghost body = lines(text@.skip(start as int));
    let ghost nv = vertex_count as nat;
    let ghost nf = face_count as nat;
    assert(body.skip(0) =~= body);
    let mut vertices: Vec<VertexText> = Vec::new();
    let mut faces: Vec<Corners> = Vec::new();
    let mut pos = start;
    while pos < text.len()
        invariant
            pos <= text.len(),
            body == lines(text@.skip(start as int)),
            nv == vertex_count >= 1,
            nf == face_count >= 1,
            vertices.len() <= nv,
            faces.len() <= nf,
            faces.len() > 0 ==> vertices.len() == nv,
            vertices.len() + faces.len() <= body.len(),
            vertices.len() + faces.len() + 2 <= pos,
            lines(text@.skip(pos as int)) == body.skip(vertices.len() + faces.len()),
            first_body_fault(body, nv, nf, 0) == first_body_fault(
                body,
                nv,
                nf,
                vertices.len() + faces.len(),
            ),
            forall|i: int|
                0 <= i < vertices.len() ==> (#[trigger] vertices[i]).of(text@) == words(body[i])
                    && vertices[i].inside(text@.len()),
            forall|i: int|
                0 <= i < faces.len() ==> #[trigger] faces[i] == corners_of(body[nv + i], winding)
                    && faces[i].inside(nv),
        decreases text.len() - pos,
    {
        let ghost k = vertices.len() + faces.len();
        let line = vertices.len() + faces.len() + 3;
        let (here, next) = read_line(text, pos);
        proof {
            assert(body.skip(k)[0] == here.of(text@));
            assert(body.skip(k).skip(1) =~= body.skip(k + 1));
        }
        if vertices.len() < vertex_count as usize {
            match read_vertex(text, here) {
                Ok(vertex) => {
                    vertices.push(vertex);
                },
                Err(kind) => {
                    return Err(OffError { line, kind });
                },
            }
        } else if faces.len() < face_count as usize {
            match read_face(text, here, vertex_count, winding) {
                Ok(corners) => {
                    faces.push(corners);
                },
                Err(kind) => {
                    return Err(OffError { line, kind });
                },
            }
        } else {
            return Err(OffError { line, kind: OffErrorKind::ExtraLine });
        }
        pos = next;
    }
    proof {
        assert(body.skip(vertices.len() + faces.len()).len() == 0);
    }
    if vertices.len() < vertex_count as usize || faces.len() < face_count as usize {
        return Err(
            OffError { line: vertices.len() + faces.len() + 2, kind: OffErrorKind::Incomplete },
        );
    }
    let mesh = MeshOutline { vertices, faces };
    proof {
        let model = body_outline(body, nv, nf, winding)->Ok_0;
        assert(mesh.of(text@).vertices =~= model.vertices);
        assert(mesh.of(text@).faces =~= model.faces);
    }
    Ok(mesh)
}

impl MeshOutline {
    /// Reads the text of a mesh.
    pub fn try_load_from_off(text: &[u8], polygon_winding: PolygonWinding) -> (r: Result<
        MeshOutline,
        OffError,
    >)
        ensures
            match r {
                Ok(mesh) => {
                    &&& off_outline(text@, polygon_winding) == Ok::<Outline, OffFault>(
                        mesh.of(text@),
                    )
                    &&& mesh.wf(text@.len())
                },
                Err(e) => off_outline(text@, polygon_winding) == Err::<Outline, OffFault>(e@),
            },
    {
        let ghost all = lines(text@);
        assert(text@.skip(0) =~= text@);
        if text.len() == 0 {
            return Err(OffError { line: 0, kind: OffErrorKind::Incomplete });
        }
        let (first, pos) = read_line(text, 0);
        if !is_keyword(text, first) {
            return Err(OffError { line: 1, kind: OffErrorKind::Keyword });
        }
        if pos >= text.len() {
            return Err(OffError { line: 1, kind: OffErrorKind::Incomplete });
        }
        let (second, start) = read_line(text, pos);
        assert(all[1] == second.of(text@));
        let (vertex_count, face_count) = match read_size(text, second) {
            Ok(size) => size,
            Err(kind) => {
                return Err(OffError { line: 2, kind });
            },
        };
        assert(body_lines(all) =~= lines(text@.skip(start as int)));
        read_body(text, start, vertex_count, face_count, polygon_winding)
    }
}

} // verus!
