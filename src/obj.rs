//! The Wavefront OBJ records a mesh is read from: `v`, `vt`, `vn` and
//! triangular `f` lines. Numbers of vertex data are kept as the numerals
//! found in the text; face indices are read and checked here.

use crate::lexical::{parse_usize, pieces, split_pieces, split_words, usize_of, views_of, words};
use vstd::prelude::*;
use vstd::slice::slice_subrange;

verus! {

/// Why a mesh text was refused.
#[derive(Debug, Clone, Copy, PartialEq, Eq, Structural)]
pub enum ObjError {
    /// A face corner whose index is not a positive decimal numeral.
    MalformedIndex,
    /// A face that refers to a vertex or normal the model does not have.
    IndexOutOfRange,
}

/// One triangular face, with 0-based indices into the model's lists. A
/// texture or normal index that the record leaves out is 0.
#[derive(Debug, Clone, Copy)]
pub struct Face {
    pub vertex_indices: [usize; 3],
    pub texture_indices: [usize; 3],
    pub normal_indices: [usize; 3],
}

impl View for Face {
    /// The three corners, each as (vertex, texture, normal) index.
    type V = Seq<(usize, usize, usize)>;

    open spec fn view(&self) -> Seq<(usize, usize, usize)> {
        seq![
            (self.vertex_indices@[0], self.texture_indices@[0], self.normal_indices@[0]),
            (self.vertex_indices@[1], self.texture_indices@[1], self.normal_indices@[1]),
            (self.vertex_indices@[2], self.texture_indices@[2], self.normal_indices@[2]),
        ]
    }
}

/// The three numerals of a `v` or `vn` record.
#[derive(Debug)]
pub struct Numerals3 {
    pub x: Vec<u8>,
    pub y: Vec<u8>,
    pub z: Vec<u8>,
}

impl View for Numerals3 {
    type V = (Seq<u8>, Seq<u8>, Seq<u8>);

    open spec fn view(&self) -> (Seq<u8>, Seq<u8>, Seq<u8>) {
        (self.x@, self.y@, self.z@)
    }
}

/// The two numerals of a `vt` record.
#[derive(Debug)]
pub struct Numerals2 {
    pub u: Vec<u8>,
    pub v: Vec<u8>,
}

impl View for Numerals2 {
    type V = (Seq<u8>, Seq<u8>);

    open spec fn view(&self) -> (Seq<u8>, Seq<u8>) {
        (self.u@, self.v@)
    }
}

/// The corners and normal of one triangle, as 0-based indices into the
/// model's vertices and normals. Without a normal the face's own normal is
/// meant.
#[derive(Debug, Clone, Copy)]
pub struct TriangleIndices {
    pub vertices: [usize; 3],
    pub normal: Option<usize>,
}

impl View for TriangleIndices {
    type V = (Seq<usize>, Option<usize>);

    open spec fn view(&self) -> (Seq<usize>, Option<usize>) {
        (self.vertices@, self.normal)
    }
}

/// A face as a triangle of the model: its three vertices and, where the model
/// has normals, the normal of its first corner. `None` where an index falls
/// outside the model's lists.
pub open spec fn resolve_face(m: ObjModelView, f: Seq<(usize, usize, usize)>) -> Option<
    (Seq<usize>, Option<usize>),
> {
    if f[0].0 < m.vertices.len() && f[1].0 < m.vertices.len() && f[2].0 < m.vertices.len() && (
    m.normals.len() > 0 ==> f[0].2 < m.normals.len()) {
        Some(
            (
                seq![f[0].0, f[1].0, f[2].0],
                if m.normals.len() > 0 {
                    Some(f[0].2)
                } else {
                    None
                },
            ),
        )
    } else {
        None
    }
}

pub struct ObjModelView {
    pub vertices: Seq<(Seq<u8>, Seq<u8>, Seq<u8>)>,
    pub texture_coords: Seq<(Seq<u8>, Seq<u8>)>,
    pub normals: Seq<(Seq<u8>, Seq<u8>, Seq<u8>)>,
    pub faces: Seq<Seq<(usize, usize, usize)>>,
}

/// The records of a mesh, in the order the text gives them.
#[derive(Debug)]
pub struct ObjModel {
    vertices: Vec<Numerals3>,
    texture_coords: Vec<Numerals2>,
    normals: Vec<Numerals3>,
    faces: Vec<Face>,
}

impl View for ObjModel {
    type V = ObjModelView;

    closed spec fn view(&self) -> ObjModelView {
        ObjModelView {
            vertices: self.vertices@.map_values(|n: Numerals3| n@),
            texture_coords: self.texture_coords@.map_values(|n: Numerals2| n@),
            normals: self.normals@.map_values(|n: Numerals3| n@),
            faces: self.faces@.map_values(|f: Face| f@),
        }
    }
}

/// The kinds of record a line can start with.
#[derive(PartialEq, Eq, Structural)]
pub enum Record {
    Vertex,
    TextureCoord,
    Normal,
    Face,
    Other,
}

pub open spec fn record_kind(w: Seq<u8>) -> Record {
    if w == seq![0x76u8] {
        Record::Vertex
    } else if w == seq![0x76u8, 0x74u8] {
        Record::TextureCoord
    } else if w == seq![0x76u8, 0x6eu8] {
        Record::Normal
    } else if w == seq![0x66u8] {
        Record::Face
    } else {
        Record::Other
    }
}

/// A 1-based index as written in a face, turned 0-based.
pub open spec fn index_of(s: Seq<u8>) -> Option<usize> {
    match usize_of(s) {
        Some(n) => if n >= 1 {
            Some((n - 1) as usize)
        } else {
            None
        },
        None => None,
    }
}

/// The index in field `k` of a corner's `/`-separated fields; 0 where the
/// field is absent or empty.
pub open spec fn optional_index(fields: Seq<Seq<u8>>, k: int) -> Option<usize> {
    if fields.len() > k && fields[k].len() > 0 {
        index_of(fields[k])
    } else {
        Some(0usize)
    }
}

/// A face corner `v`, `v/t`, `v//n` or `v/t/n` as (vertex, texture, normal).
pub open spec fn corner_of(w: Seq<u8>) -> Option<(usize, usize, usize)> {
    let f = pieces(w, 0x2fu8);
    match (index_of(f[0]), optional_index(f, 1), optional_index(f, 2)) {
        (Some(v), Some(t), Some(n)) => Some((v, t, n)),
        _ => None,
    }
}

/// The corners of a face record whose corner words are `a`, `b`, `c`.
pub open spec fn face_of(a: Seq<u8>, b: Seq<u8>, c: Seq<u8>) -> Option<Seq<(usize, usize, usize)>> {
    match (corner_of(a), corner_of(b), corner_of(c)) {
        (Some(x), Some(y), Some(z)) => Some(seq![x, y, z]),
        _ => None,
    }
}

/// The model after one more line of text; `None` where the line is a
/// triangular face with a malformed index. Lines of other kinds, records with
/// too few numbers and faces that are not triangles leave the model as it is.
pub open spec fn after_line(m: ObjModelView, line: Seq<u8>) -> Option<ObjModelView> {
    let w = words(line);
    if w.len() == 0 {
        Some(m)
    } else {
        match record_kind(w[0]) {
            Record::Vertex => if w.len() >= 4 {
                Some(
                    ObjModelView {
                        vertices: m.vertices.push((w[1], w[2], w[3])),
                        texture_coords: m.texture_coords,
                        normals: m.normals,
                        faces: m.faces,
                    },
                )
            } else {
                Some(m)
            },
            Record::TextureCoord => if w.len() >= 3 {
                Some(
                    ObjModelView {
                        vertices: m.vertices,
                        texture_coords: m.texture_coords.push((w[1], w[2])),
                        normals: m.normals,
                        faces: m.faces,
                    },
                )
            } else {
                Some(m)
            },
            Record::Normal => if w.len() >= 4 {
                Some(
                    ObjModelView {
                        vertices: m.vertices,
                        texture_coords: m.texture_coords,
                        normals: m.normals.push((w[1], w[2], w[3])),
                        faces: m.faces,
                    },
                )
            } else {
                Some(m)
            },
            Record::Face => if w.len() != 4 {
                Some(m)
            } else {
                match face_of(w[1], w[2], w[3]) {
                    Some(f) => Some(
                        ObjModelView {
                            vertices: m.vertices,
                            texture_coords: m.texture_coords,
                            normals: m.normals,
                            faces: m.faces.push(f),
                        },
                    ),
                    None => None,
                }
            },
            Record::Other => Some(m),
        }
    }
}

/// The model with no records.
pub open spec fn empty_model() -> ObjModelView {
    ObjModelView { vertices: seq![], texture_coords: seq![], normals: seq![], faces: seq![] }
}

/// The model after the given lines in order; `None` as soon as one is refused.
pub open spec fn after_lines(m: ObjModelView, lines: Seq<Seq<u8>>) -> Option<ObjModelView>
    decreases lines.len(),
{
    if lines.len() == 0 {
        Some(m)
    } else {
        match after_lines(m, lines.drop_last()) {
            Some(prev) => after_line(prev, lines.last()),
            None => None,
        }
    }
}

fn classify(w: &Vec<u8>) -> (r: Record)
    ensures
        r == record_kind(w@),
{
    if w.len() == 1 && w[0] == 0x76u8 {
        assert(w@ =~= seq![0x76u8]);
        Record::Vertex
    } else if w.len() == 2 && w[0] == 0x76u8 && w[1] == 0x74u8 {
        assert(w@ =~= seq![0x76u8, 0x74u8]);
        Record::TextureCoord
    } else if w.len() == 2 && w[0] == 0x76u8 && w[1] == 0x6eu8 {
        assert(w@ =~= seq![0x76u8, 0x6eu8]);
        Record::Normal
    } else if w.len() == 1 && w[0] == 0x66u8 {
        assert(w@ =~= seq![0x66u8]);
        Record::Face
    } else {
        proof {
            if w@ == seq![0x76u8] || w@ == seq![0x66u8] {
                assert(w@.len() == 1);
            }
            if w@ == seq![0x76u8, 0x74u8] || w@ == seq![0x76u8, 0x6eu8] {
                assert(w@.len() == 2);
            }
        }
        Record::Other
    }
}

fn parse_index(s: &Vec<u8>) -> (r: Option<usize>)
    ensures
        r == index_of(s@),
{
    match parse_usize(s.as_slice()) {
        Some(n) => if n >= 1 {
            Some(n - 1)
        } else {
            None
        },
        None => None,
    }
}

proof fn lemma_pieces_nonempty(s: Seq<u8>, sep: u8)
    ensures
        pieces(s, sep).len() >= 1,
    decreases s.len(),
{
    if s.len() > 0 {
        lemma_pieces_nonempty(s.drop_last(), sep);
    }
}

fn parse_corner(w: &Vec<u8>) -> (r: Option<(usize, usize, usize)>)
    ensures
        r == corner_of(w@),
{
    let fields = split_pieces(w.as_slice(), 0x2fu8);
    proof {
        lemma_pieces_nonempty(w@, 0x2fu8);
        assert(views_of(fields@).len() == fields@.len());
    }
    let ghost f = pieces(w@, 0x2fu8);
    assert(fields[0]@ == f[0]);
    let vertex = match parse_index(&fields[0]) {
        Some(v) => v,
        None => {
            return None;
        },
    };
    let texture = if fields.len() > 1 && fields[1].len() > 0 {
        assert(fields[1]@ == f[1]);
        match parse_index(&fields[1]) {
            Some(t) => t,
            None => {
                return None;
            },
        }
    } else {
        assert(!(f.len() > 1 && f[1].len() > 0));
        0
    };
    let normal = if fields.len() > 2 && fields[2].len() > 0 {
        assert(fields[2]@ == f[2]);
        match parse_index(&fields[2]) {
            Some(n) => n,
            None => {
                return None;
            },
        }
    } else {
        assert(!(f.len() > 2 && f[2].len() > 0));
        0
    };
    Some((vertex, texture, normal))
}

fn parse_face(parts: &Vec<Vec<u8>>) -> (r: Option<Face>)
    requires
        parts.len() == 4,
    ensures
        match face_of(parts@[1]@, parts@[2]@, parts@[3]@) {
            Some(f) => r matches Some(face) && face@ == f,
            None => r is None,
        },
{
    let a = match parse_corner(&parts[1]) {
        Some(c) => c,
        None => {
            return None;
        },
    };
    let b = match parse_corner(&parts[2]) {
        Some(c) => c,
        None => {
            return None;
        },
    };
    let c = match parse_corner(&parts[3]) {
        Some(c) => c,
        None => {
            return None;
        },
    };
    let face = Face {
        vertex_indices: [a.0, b.0, c.0],
        texture_indices: [a.1, b.1, c.1],
        normal_indices: [a.2, b.2, c.2],
    };
    assert(face@ =~= seq![a, b, c]);
    Some(face)
}

fn take_numerals3(parts: Vec<Vec<u8>>) -> (r: Numerals3)
    requires
        parts.len() >= 4,
    ensures
        r@ == (parts@[1]@, parts@[2]@, parts@[3]@),
{
    let mut p = parts;
    let z = p.remove(3);
    let y = p.remove(2);
    let x = p.remove(1);
    Numerals3 { x, y, z }
}

fn take_numerals2(parts: Vec<Vec<u8>>) -> (r: Numerals2)
    requires
        parts.len() >= 3,
    ensures
        r@ == (parts@[1]@, parts@[2]@),
{
    let mut p = parts;
    let v = p.remove(2);
    let u = p.remove(1);
    Numerals2 { u, v }
}

/// Lines after a refused one leave the text refused.
proof fn lemma_refusal_persists(m: ObjModelView, lines: Seq<Seq<u8>>, more: Seq<Seq<u8>>)
    requires
        after_lines(m, lines) is None,
    ensures
        after_lines(m, lines + more) is None,
    decreases more.len(),
{
    if more.len() > 0 {
        lemma_refusal_persists(m, lines, more.drop_last());
        assert((lines + more).drop_last() =~= lines + more.drop_last());
    } else {
        assert(lines + more =~= lines);
    }
}

/// The finished pieces of a prefix stay the first pieces of any longer one.
proof fn lemma_pieces_prefix(s: Seq<u8>, sep: u8, i: int, j: int)
    requires
        0 <= i <= j <= s.len(),
    ensures
        pieces(s.take(j), sep).len() >= pieces(s.take(i), sep).len(),
        pieces(s.take(j), sep).take(pieces(s.take(i), sep).len() - 1) == pieces(
            s.take(i),
            sep,
        ).drop_last(),
    decreases j - i,
{
    lemma_pieces_nonempty(s.take(i), sep);
    if j > i {
        lemma_pieces_prefix(s, sep, i, j - 1);
        assert(s.take(j).drop_last() =~= s.take(j - 1));
        lemma_pieces_nonempty(s.take(j - 1), sep);
        let p = pieces(s.take(j - 1), sep);
        let n = pieces(s.take(i), sep).len() - 1;
        assert(pieces(s.take(j), sep).take(n) =~= p.take(n));
    } else {
        assert(pieces(s.take(i), sep).take(pieces(s.take(i), sep).len() - 1) =~= pieces(
            s.take(i),
            sep,
        ).drop_last());
    }
}

impl ObjModel {
    /// A model with no records.
    pub fn new() -> (r: ObjModel)
        ensures
            r@ == empty_model(),
    {
        let r = ObjModel {
            vertices: Vec::new(),
            texture_coords: Vec::new(),
            normals: Vec::new(),
            faces: Vec::new(),
        };
        assert(r@.vertices =~= seq![]);
        assert(r@.texture_coords =~= seq![]);
        assert(r@.normals =~= seq![]);
        assert(r@.faces =~= seq![]);
        r
    }

    /// Reads a whole OBJ text, line by line; lines end at `\n`, and a `\r`
    /// before it is whitespace. Refused at the first triangular face with a
    /// malformed index.
    pub fn parse(text: &[u8]) -> (r: Result<ObjModel, ObjError>)
        ensures
            match after_lines(empty_model(), pieces(text@, 0x0au8)) {
                Some(m) => r matches Ok(model) && model@ == m,
                None => r == Err::<ObjModel, ObjError>(ObjError::MalformedIndex),
            },
    {
        let mut model = ObjModel::new();
        let mut start: usize = 0;
        let mut i: usize = 0;
        let ghost mut done: Seq<Seq<u8>> = seq![];
        assert(text@.take(0) =~= Seq::<u8>::empty());
        assert(text@.subrange(0, 0) =~= Seq::<u8>::empty());
        while i < text.len()
            invariant
                start <= i <= text@.len(),
                pieces(text@.take(i as int), 0x0au8) == done.push(text@.subrange(start as int, i as int)),
                after_lines(empty_model(), done) == Some(model@),
            decreases text@.len() - i,
        {
            let b = text[i];
            assert(text@.take(i + 1).drop_last() =~= text@.take(i as int));
            assert(text@.take(i + 1).last() == b);
            if b == 0x0au8 {
                let line = slice_subrange(text, start, i);
                let ghost cur = text@.subrange(start as int, i as int);
                assert(done.push(cur).drop_last() =~= done);
                match model.parse_line(line) {
                    Ok(()) => {},
                    Err(e) => {
                        proof {
                            let lines = done.push(cur);
                            let all = pieces(text@, 0x0au8);
                            assert(pieces(text@.take(i + 1), 0x0au8).drop_last() =~= lines);
                            lemma_pieces_prefix(text@, 0x0au8, i + 1, text@.len() as int);
                            assert(text@.take(text@.len() as int) =~= text@);
                            assert(all =~= lines + all.skip(lines.len() as int));
                            lemma_refusal_persists(empty_model(), lines, all.skip(lines.len() as int));
                        }
                        return Err(e);
                    },
                }
                proof {
                    done = done.push(cur);
                }
                start = i + 1;
                assert(text@.subrange(start as int, start as int) =~= Seq::<u8>::empty());
            } else {
                assert(text@.subrange(start as int, i + 1) =~= text@.subrange(
                    start as int,
                    i as int,
                ).push(b));
            }
            i = i + 1;
        }
        assert(text@.take(i as int) =~= text@);
        let line = slice_subrange(text, start, i);
        let ghost cur = text@.subrange(start as int, i as int);
        assert(done.push(cur).drop_last() =~= done);
        match model.parse_line(line) {
            Ok(()) => Ok(model),
            Err(e) => Err(e),
        }
    }

    /// Adds the record on one line of OBJ text. A triangular face with an
    /// index that is not a positive numeral is refused, and the model is then
    /// left as it was.
    pub fn parse_line(&mut self, line: &[u8]) -> (r: Result<(), ObjError>)
        ensures
            match after_line(old(self)@, line@) {
                Some(m) => r is Ok && final(self)@ == m,
                None => r == Err::<(), ObjError>(ObjError::MalformedIndex) && final(self)@ == old(
                    self,
                )@,
            },
    {
        let parts = split_words(line);
        proof {
            assert(views_of(parts@).len() == parts@.len());
        }
        if parts.len() == 0 {
            return Ok(());
        }
        let ghost w = words(line@);
        assert(parts[0]@ == w[0]);
        match classify(&parts[0]) {
            Record::Vertex => {
                if parts.len() >= 4 {
                    assert(parts[1]@ == w[1] && parts[2]@ == w[2] && parts[3]@ == w[3]);
                    let n = take_numerals3(parts);
                    self.vertices.push(n);
                    assert(self@.vertices =~= old(self)@.vertices.push(n@));
                    assert(self@.texture_coords =~= old(self)@.texture_coords);
                    assert(self@.normals =~= old(self)@.normals);
                    assert(self@.faces =~= old(self)@.faces);
                }
                Ok(())
            },
            Record::TextureCoord => {
                if parts.len() >= 3 {
                    assert(parts[1]@ == w[1] && parts[2]@ == w[2]);
                    let n = take_numerals2(parts);
                    self.texture_coords.push(n);
                    assert(self@.texture_coords =~= old(self)@.texture_coords.push(n@));
                    assert(self@.vertices =~= old(self)@.vertices);
                    assert(self@.normals =~= old(self)@.normals);
                    assert(self@.faces =~= old(self)@.faces);
                }
                Ok(())
            },
            Record::Normal => {
                if parts.len() >= 4 {
                    assert(parts[1]@ == w[1] && parts[2]@ == w[2] && parts[3]@ == w[3]);
                    let n = take_numerals3(parts);
                    self.normals.push(n);
                    assert(self@.normals =~= old(self)@.normals.push(n@));
                    assert(self@.vertices =~= old(self)@.vertices);
                    assert(self@.texture_coords =~= old(self)@.texture_coords);
                    assert(self@.faces =~= old(self)@.faces);
                }
                Ok(())
            },
            Record::Face => {
                if parts.len() != 4 {
                    return Ok(());
                }
                assert(parts[1]@ == w[1] && parts[2]@ == w[2] && parts[3]@ == w[3]);
                match parse_face(&parts) {
                    Some(f) => {
                        self.faces.push(f);
                        assert(self@.faces =~= old(self)@.faces.push(f@));
                        assert(self@.vertices =~= old(self)@.vertices);
                        assert(self@.texture_coords =~= old(self)@.texture_coords);
                        assert(self@.normals =~= old(self)@.normals);
                        Ok(())
                    },
                    None => Err(ObjError::MalformedIndex),
                }
            },
            Record::Other => Ok(()),
        }
    }

    pub fn vertices(&self) -> (r: &Vec<Numerals3>)
        ensures
            r@.map_values(|n: Numerals3| n@) == self@.vertices,
    {
        &self.vertices
    }

    pub fn texture_coords(&self) -> (r: &Vec<Numerals2>)
        ensures
            r@.map_values(|n: Numerals2| n@) == self@.texture_coords,
    {
        &self.texture_coords
    }

    pub fn normals(&self) -> (r: &Vec<Numerals3>)
        ensures
            r@.map_values(|n: Numerals3| n@) == self@.normals,
    {
        &self.normals
    }

    pub fn faces(&self) -> (r: &Vec<Face>)
        ensures
            r@.map_values(|f: Face| f@) == self@.faces,
    {
        &self.faces
    }

    /// The faces as triangles of the model, in order; refused where a face
    /// names a vertex, or a normal while the model has normals, that is not
    /// there.
    pub fn to_triangles(&self) -> (r: Result<Vec<TriangleIndices>, ObjError>)
        ensures
            r is Ok <==> forall|i: int|
                0 <= i < self@.faces.len() ==> (#[trigger] resolve_face(self@, self@.faces[i])) is Some,
            r matches Ok(t) ==> t@.len() == self@.faces.len() && forall|i: int|
                0 <= i < t@.len() ==> resolve_face(self@, self@.faces[i]) == Some(
                    #[trigger] t@[i]@,
                ),
            r is Err ==> r == Err::<Vec<TriangleIndices>, ObjError>(ObjError::IndexOutOfRange),
    {
        let mut out: Vec<TriangleIndices> = Vec::new();
        let nv = self.vertices.len();
        let nn = self.normals.len();
        let mut i: usize = 0;
        while i < self.faces.len()
            invariant
                i <= self.faces@.len(),
                nv == self@.vertices.len(),
                nn == self@.normals.len(),
                self@.faces.len() == self.faces@.len(),
                out@.len() == i,
                forall|k: int|
                    0 <= k < i ==> resolve_face(self@, self@.faces[k]) == Some(
                        #[trigger] out@[k]@,
                    ),
            decreases self.faces@.len() - i,
        {
            let f = self.faces[i];
            assert(self@.faces[i as int] == f@);
            let v0 = f.vertex_indices[0];
            let v1 = f.vertex_indices[1];
            let v2 = f.vertex_indices[2];
            let n0 = f.normal_indices[0];
            if v0 >= nv || v1 >= nv || v2 >= nv || (nn > 0 && n0 >= nn) {
                assert(resolve_face(self@, self@.faces[i as int]) is None);
                return Err(ObjError::IndexOutOfRange);
            }
            let normal = if nn > 0 {
                Some(n0)
            } else {
                None
            };
            let t = TriangleIndices { vertices: [v0, v1, v2], normal };
            assert(t@.0 =~= seq![v0, v1, v2]);
            out.push(t);
            i = i + 1;
        }
        assert forall|k: int| 0 <= k < self@.faces.len() implies (#[trigger] resolve_face(
            self@,
            self@.faces[k],
        )) is Some by {
            assert(resolve_face(self@, self@.faces[k]) == Some(out@[k]@));
        }
        Ok(out)
    }
}

} // verus!
