//! The interchange writer: a mesh as plain text, one element to a line.

use crate::format::{decimal, fixed_text, push_decimal, push_fixed};
use crate::object::{rows, Mesh, Object};
use crate::single::Single;
use vstd::prelude::*;
use vstd::string::StringExecFns;

verus! {

/// The line of a vertex position: `v x y z`.
pub open spec fn vertex_line(v: Seq<Single>) -> Seq<char> {
    "v "@ + fixed_text(v[0].bits) + " "@ + fixed_text(v[1].bits) + " "@ + fixed_text(v[2].bits)
        + "\n"@
}

/// The line of a texture coordinate: `vt u v`.
pub open spec fn uv_line(u: Seq<Single>) -> Seq<char> {
    "vt "@ + fixed_text(u[0].bits) + " "@ + fixed_text(u[1].bits) + "\n"@
}

/// A corner of a face: the index of its vertex, counted from one, for the
/// position and again for the texture coordinate.
pub open spec fn corner(index: u32) -> Seq<char> {
    decimal((index + 1) as nat) + "/"@ + decimal((index + 1) as nat)
}

/// The line of a face: `f` and its three corners.
pub open spec fn face_line(f: Seq<u32>) -> Seq<char> {
    "f "@ + corner(f[0]) + " "@ + corner(f[1]) + " "@ + corner(f[2]) + "\n"@
}

/// The lines of a list of elements, in order.
pub open spec fn lines<T>(items: Seq<Seq<T>>, line: spec_fn(Seq<T>) -> Seq<char>) -> Seq<char>
    decreases items.len(),
{
    if items.len() == 0 {
        Seq::empty()
    } else {
        lines(items.drop_last(), line) + line(items.last())
    }
}

/// The section of the positions: a comment with their number, then their lines.
pub open spec fn vertex_section(vertices: Seq<Seq<Single>>) -> Seq<char> {
    "# Vertices: "@ + decimal(vertices.len()) + "\n"@ + lines(
        vertices,
        |v: Seq<Single>| vertex_line(v),
    )
}

/// The section of the texture coordinates.
pub open spec fn uv_section(uvs: Seq<Seq<Single>>) -> Seq<char> {
    "\n# UVs: "@ + decimal(uvs.len()) + "\n"@ + lines(uvs, |u: Seq<Single>| uv_line(u))
}

/// The section of the faces.
pub open spec fn face_section(faces: Seq<Seq<u32>>) -> Seq<char> {
    "\n# Faces: "@ + decimal(faces.len()) + "\n"@ + lines(faces, |f: Seq<u32>| face_line(f))
}

/// The text of a mesh: positions, texture coordinates and faces, each section
/// under a comment that gives the number of its lines.
pub open spec fn obj_text(mesh: Mesh) -> Seq<char> {
    vertex_section(mesh.vertices) + uv_section(mesh.uvs) + face_section(mesh.faces)
}

fn push_vertex_line(out: &mut String, v: &[Single; 3])
    ensures
        final(out)@ == old(out)@ + vertex_line(v@),
{
    out.append("v ");
    push_fixed(out, v[0]);
    out.append(" ");
    push_fixed(out, v[1]);
    out.append(" ");
    push_fixed(out, v[2]);
    out.append("\n");
    assert(final(out)@ =~= old(out)@ + vertex_line(v@));
}

fn push_uv_line(out: &mut String, u: &[Single; 2])
    ensures
        final(out)@ == old(out)@ + uv_line(u@),
{
    out.append("vt ");
    push_fixed(out, u[0]);
    out.append(" ");
    push_fixed(out, u[1]);
    out.append("\n");
    assert(final(out)@ =~= old(out)@ + uv_line(u@));
}

fn push_corner(out: &mut String, index: u32)
    ensures
        final(out)@ == old(out)@ + corner(index),
{
    let n: u128 = index as u128 + 1;
    push_decimal(out, n);
    out.append("/");
    push_decimal(out, n);
    assert(final(out)@ =~= old(out)@ + corner(index));
}

fn push_face_line(out: &mut String, f: &[u32; 3])
    ensures
        final(out)@ == old(out)@ + face_line(f@),
{
    out.append("f ");
    push_corner(out, f[0]);
    out.append(" ");
    push_corner(out, f[1]);
    out.append(" ");
    push_corner(out, f[2]);
    out.append("\n");
    assert(final(out)@ =~= old(out)@ + face_line(f@));
}

fn push_vertices(out: &mut String, vertices: &Vec<[Single; 3]>)
    ensures
        final(out)@ == old(out)@ + vertex_section(rows(vertices@)),
{
    let ghost line = |v: Seq<Single>| vertex_line(v);
    let ghost items = rows(vertices@);
    out.append("# Vertices: ");
    push_decimal(out, vertices.len() as u128);
    out.append("\n");
    let ghost head = out@;
    let mut i: usize = 0;
    assert(head + lines(items.take(0), line) =~= head);
    while i < vertices.len()
        invariant
            i <= vertices.len(),
            items == rows(vertices@),
            line == |v: Seq<Single>| vertex_line(v),
            out@ == head + lines(items.take(i as int), line),
        decreases vertices.len() - i,
    {
        proof {
            let next = items.take(i + 1);
            assert(next.drop_last() =~= items.take(i as int));
            assert(next.last() == vertices@[i as int]@);
            assert(line(next.last()) == vertex_line(next.last()));
        }
        push_vertex_line(out, &vertices[i]);
        assert(out@ =~= head + lines(items.take(i + 1), line));
        i += 1;
    }
    assert(items.take(i as int) =~= items);
    assert(final(out)@ =~= old(out)@ + vertex_section(items));
}

fn push_uvs(out: &mut String, uvs: &Vec<[Single; 2]>)
    ensures
        final(out)@ == old(out)@ + uv_section(rows(uvs@)),
{
    let ghost line = |u: Seq<Single>| uv_line(u);
    let ghost items = rows(uvs@);
    out.append("\n# UVs: ");
    push_decimal(out, uvs.len() as u128);
    out.append("\n");
    let ghost head = out@;
    let mut i: usize = 0;
    assert(head + lines(items.take(0), line) =~= head);
    while i < uvs.len()
        invariant
            i <= uvs.len(),
            items == rows(uvs@),
            line == |u: Seq<Single>| uv_line(u),
            out@ == head + lines(items.take(i as int), line),
        decreases uvs.len() - i,
    {
        proof {
            let next = items.take(i + 1);
            assert(next.drop_last() =~= items.take(i as int));
            assert(next.last() == uvs@[i as int]@);
            assert(line(next.last()) == uv_line(next.last()));
        }
        push_uv_line(out, &uvs[i]);
        assert(out@ =~= head + lines(items.take(i + 1), line));
        i += 1;
    }
    assert(items.take(i as int) =~= items);
    assert(final(out)@ =~= old(out)@ + uv_section(items));
}

fn push_faces(out: &mut String, faces: &Vec<[u32; 3]>)
    ensures
        final(out)@ == old(out)@ + face_section(rows(faces@)),
{
    let ghost line = |f: Seq<u32>| face_line(f);
    let ghost items = rows(faces@);
    out.append("\n# Faces: ");
    push_decimal(out, faces.len() as u128);
    out.append("\n");
    let ghost head = out@;
    let mut i: usize = 0;
    assert(head + lines(items.take(0), line) =~= head);
    while i < faces.len()
        invariant
            i <= faces.len(),
            items == rows(faces@),
            line == |f: Seq<u32>| face_line(f),
            out@ == head + lines(items.take(i as int), line),
        decreases faces.len() - i,
    {
        proof {
            let next = items.take(i + 1);
            assert(next.drop_last() =~= items.take(i as int));
            assert(next.last() == faces@[i as int]@);
            assert(line(next.last()) == face_line(next.last()));
        }
        push_face_line(out, &faces[i]);
        assert(out@ =~= head + lines(items.take(i + 1), line));
        i += 1;
    }
    assert(items.take(i as int) =~= items);
    assert(final(out)@ =~= old(out)@ + face_section(items));
}

impl Object {
    /// Writes the mesh as text: a comment with the number of positions and one
    /// line `v x y z` for each; a comment with the number of texture
    /// coordinates and one line `vt u v` for each; a comment with the number of
    /// faces and one line `f a/a b/b c/c` for each. Numbers with a fraction are
    /// in fixed notation with four decimal places throughout. The corners of a
    /// face name their vertex counted from one, the same index for the position
    /// and for the texture coordinate.
    pub fn to_obj(&self) -> (s: String)
        ensures
            s@ == obj_text(self@),
    {
        let mut s = String::new();
        push_vertices(&mut s, &self.vertices);
        push_uvs(&mut s, &self.uvs);
        push_faces(&mut s, &self.faces);
        assert(s@ =~= obj_text(self@));
        s
    }
}

} // verus!
