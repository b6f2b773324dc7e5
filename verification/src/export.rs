//! The export snapshot: a converted document as flat buffers.

use crate::entity::{meshes, Entity};
use crate::object::{rows, Mesh};
use crate::single::Single;
use vstd::prelude::*;

verus! {

/// One converted document, flattened: for every object its positions, texture
/// coordinates and face indices, one object behind the other in each buffer,
/// with the length that each object takes in each buffer, and the translation.
#[derive(Debug)]
pub struct ParsedModelData {
    pub object_count: usize,
    pub vertices: Vec<Single>,
    pub uvs: Vec<Single>,
    pub faces: Vec<u32>,
    pub vertices_len: Vec<usize>,
    pub uvs_len: Vec<usize>,
    pub faces_len: Vec<usize>,
    pub translation: Vec<Single>,
}

/// The position buffer of each object: its positions, one behind the other.
pub open spec fn vertex_parts(objects: Seq<Mesh>) -> Seq<Seq<Single>> {
    Seq::new(objects.len(), |i: int| objects[i].vertices.flatten())
}

/// The texture-coordinate buffer of each object.
pub open spec fn uv_parts(objects: Seq<Mesh>) -> Seq<Seq<Single>> {
    Seq::new(objects.len(), |i: int| objects[i].uvs.flatten())
}

/// The index buffer of each object.
pub open spec fn face_parts(objects: Seq<Mesh>) -> Seq<Seq<u32>> {
    Seq::new(objects.len(), |i: int| objects[i].faces.flatten())
}

/// The lengths of a list of buffers.
pub open spec fn lengths<T>(parts: Seq<Seq<T>>) -> Seq<usize> {
    Seq::new(parts.len(), |i: int| parts[i].len() as usize)
}

/// Appends the members of every row to `out` and returns how many they are.
fn flatten_into<T: Copy, const N: usize>(items: &Vec<[T; N]>, out: &mut Vec<T>) -> (n: usize)
    ensures
        final(out)@ == old(out)@ + rows(items@).flatten(),
        n == rows(items@).flatten().len(),
{
    let ghost before = out@;
    let ghost all = rows(items@);
    let start = out.len();
    let mut i: usize = 0;
    assert(all.take(0) =~= Seq::<Seq<T>>::empty());
    assert(before + all.take(0).flatten() =~= before);
    while i < items.len()
        invariant
            i <= items.len(),
            all == rows(items@),
            out@ == before + all.take(i as int).flatten(),
        decreases items.len() - i,
    {
        let ghost so_far = out@;
        let row = &items[i];
        let mut j: usize = 0;
        while j < N
            invariant
                j <= N,
                out@ == so_far + row@.take(j as int),
            decreases N - j,
        {
            out.push(row[j]);
            assert(out@ =~= so_far + row@.take(j + 1));
            j += 1;
        }
        proof {
            assert(row@.take(N as int) =~= row@);
            assert(all.take(i + 1) =~= all.take(i as int).push(row@));
            all.take(i as int).lemma_flatten_push(row@);
            assert(out@ =~= before + all.take(i + 1).flatten());
        }
        i += 1;
    }
    assert(all.take(i as int) =~= all);
    out.len() - start
}

impl Entity {
    /// Flattens the document into buffers: the objects' positions, texture
    /// coordinates and face indices, each kind in one buffer in the order of the
    /// objects, and beside each buffer the length that every object takes in it.
    pub fn to_ffi(&self) -> (d: ParsedModelData)
        ensures
            d.object_count == self.objects@.len(),
            d.vertices@ == vertex_parts(self@.objects).flatten(),
            d.uvs@ == uv_parts(self@.objects).flatten(),
            d.faces@ == face_parts(self@.objects).flatten(),
            d.vertices_len@ == lengths(vertex_parts(self@.objects)),
            d.uvs_len@ == lengths(uv_parts(self@.objects)),
            d.faces_len@ == lengths(face_parts(self@.objects)),
            d.translation@ == self@.translation,
    {
        let mut vertices: Vec<Single> = Vec::new();
        let mut uvs: Vec<Single> = Vec::new();
        let mut faces: Vec<u32> = Vec::new();
        let mut vertices_len: Vec<usize> = Vec::new();
        let mut uvs_len: Vec<usize> = Vec::new();
        let mut faces_len: Vec<usize> = Vec::new();
        let ghost all = self@.objects;
        let mut i: usize = 0;
        proof {
            assert(vertex_parts(all.take(0)) =~= Seq::empty());
            assert(uv_parts(all.take(0)) =~= Seq::empty());
            assert(face_parts(all.take(0)) =~= Seq::empty());
            assert(lengths(vertex_parts(all.take(0))) =~= Seq::empty());
            assert(lengths(uv_parts(all.take(0))) =~= Seq::empty());
            assert(lengths(face_parts(all.take(0))) =~= Seq::empty());
        }
        while i < self.objects.len()
            invariant
                i <= self.objects.len(),
                all == meshes(self.objects@),
                vertices@ == vertex_parts(all.take(i as int)).flatten(),
                uvs@ == uv_parts(all.take(i as int)).flatten(),
                faces@ == face_parts(all.take(i as int)).flatten(),
                vertices_len@ == lengths(vertex_parts(all.take(i as int))),
                uvs_len@ == lengths(uv_parts(all.take(i as int))),
                faces_len@ == lengths(face_parts(all.take(i as int))),
            decreases self.objects.len() - i,
        {
            let object = &self.objects[i];
            let ghost mesh = object@;
            let nv = flatten_into(&object.vertices, &mut vertices);
            let nu = flatten_into(&object.uvs, &mut uvs);
            let nf = flatten_into(&object.faces, &mut faces);
            vertices_len.push(nv);
            uvs_len.push(nu);
            faces_len.push(nf);
            proof {
                let prev = all.take(i as int);
                let next = all.take(i + 1);
                assert(all[i as int] == mesh);
                assert(vertex_parts(next) =~= vertex_parts(prev).push(mesh.vertices.flatten()));
                assert(uv_parts(next) =~= uv_parts(prev).push(mesh.uvs.flatten()));
                assert(face_parts(next) =~= face_parts(prev).push(mesh.faces.flatten()));
                vertex_parts(prev).lemma_flatten_push(mesh.vertices.flatten());
                uv_parts(prev).lemma_flatten_push(mesh.uvs.flatten());
                face_parts(prev).lemma_flatten_push(mesh.faces.flatten());
                assert(vertices_len@ =~= lengths(vertex_parts(next)));
                assert(uvs_len@ =~= lengths(uv_parts(next)));
                assert(faces_len@ =~= lengths(face_parts(next)));
            }
            i += 1;
        }
        assert(all.take(i as int) =~= all);
        let mut translation: Vec<Single> = Vec::new();
        translation.push(self.translation[0]);
        translation.push(self.translation[1]);
        translation.push(self.translation[2]);
        assert(translation@ =~= self.translation@);
        ParsedModelData {
            object_count: self.objects.len(),
            vertices,
            uvs,
            faces,
            vertices_len,
            uvs_len,
            faces_len,
            translation,
        }
    }
}

} // verus!
