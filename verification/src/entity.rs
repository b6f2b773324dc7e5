//! A converted document: its objects and its translation.

use crate::error::{Failure, ParseError};
use crate::object::{assembled, Mesh, Object};
use crate::single::Single;
use crate::structure::{DataBlock, RenderDataSource, RootNode};
use vstd::prelude::*;

verus! {

/// The objects of one document, with the translation of its root transform.
#[derive(Debug)]
pub struct Entity {
    pub objects: Vec<Object>,
    pub translation: [Single; 3],
}

/// A converted document, as sequences.
pub struct Scene {
    pub objects: Seq<Mesh>,
    pub translation: Seq<Single>,
}

/// The meshes of a list of objects.
pub open spec fn meshes(objects: Seq<Object>) -> Seq<Mesh> {
    Seq::new(objects.len(), |i: int| objects[i]@)
}

impl View for Entity {
    type V = Scene;

    open spec fn view(&self) -> Scene {
        Scene { objects: meshes(self.objects@), translation: self.translation@ }
    }
}

/// The zero vector.
pub open spec fn zero_translation() -> Seq<Single> {
    seq![Single { bits: 0 }, Single { bits: 0 }, Single { bits: 0 }]
}

/// The translation of a document: that of the transform of the one render node
/// of its root node. Without a root node, and with a root node of no or of
/// several render nodes, it is the zero vector.
pub open spec fn translation_of(root: Option<RootNode>) -> Seq<Single> {
    match root {
        Some(node) => if node.render_nodes@.len() == 1 {
            node.render_nodes@[0].transform.spec_translation()
        } else {
            zero_translation()
        },
        None => zero_translation(),
    }
}

/// The meshes of a list of render data sources, in order; the first source that
/// fails decides the failure.
pub open spec fn all_assembled(blocks: Seq<DataBlock>, sources: Seq<RenderDataSource>) -> Result<
    Seq<Mesh>,
    Failure,
>
    decreases sources.len(),
{
    if sources.len() == 0 {
        Ok(Seq::empty())
    } else {
        match all_assembled(blocks, sources.drop_last()) {
            Err(k) => Err(k),
            Ok(done) => match assembled(blocks, sources.last()) {
                Err(k) => Err(k),
                Ok(mesh) => Ok(done.push(mesh)),
            },
        }
    }
}

/// The converted document of the given parts.
pub open spec fn converted(
    blocks: Seq<DataBlock>,
    sources: Seq<RenderDataSource>,
    root: Option<RootNode>,
) -> Result<Scene, Failure> {
    match all_assembled(blocks, sources) {
        Err(k) => Err(k),
        Ok(objects) => Ok(Scene { objects, translation: translation_of(root) }),
    }
}

/// Where every source assembles, there is one object for each source, in the
/// order of the sources, and each is the mesh of its own source alone.
pub proof fn lemma_one_object_per_source(
    blocks: Seq<DataBlock>,
    sources: Seq<RenderDataSource>,
)
    requires
        all_assembled(blocks, sources) is Ok,
    ensures
        all_assembled(blocks, sources)->Ok_0.len() == sources.len(),
        forall|i: int|
            0 <= i < sources.len() ==> assembled(blocks, #[trigger] sources[i]) == Ok::<
                _,
                Failure,
            >(all_assembled(blocks, sources)->Ok_0[i]),
    decreases sources.len(),
{
    if sources.len() > 0 {
        let front = sources.drop_last();
        lemma_one_object_per_source(blocks, front);
        let done = all_assembled(blocks, front)->Ok_0;
        assert forall|i: int| 0 <= i < sources.len() implies assembled(
            blocks,
            #[trigger] sources[i],
        ) == Ok::<_, Failure>(all_assembled(blocks, sources)->Ok_0[i]) by {
            if i < front.len() {
                assert(sources[i] == front[i]);
                assert(all_assembled(blocks, sources)->Ok_0[i] == done[i]);
            } else {
                assert(sources[i] == sources.last());
            }
        }
    }
}

/// Once a source has failed, the sources behind it change nothing.
proof fn lemma_assembly_failure(blocks: Seq<DataBlock>, sources: Seq<RenderDataSource>, i: int)
    requires
        0 <= i <= sources.len(),
        all_assembled(blocks, sources.take(i)) is Err,
    ensures
        all_assembled(blocks, sources) == all_assembled(blocks, sources.take(i)),
    decreases sources.len() - i,
{
    if i == sources.len() {
        assert(sources.take(i) =~= sources);
    } else {
        assert(sources.take(i + 1).drop_last() =~= sources.take(i));
        lemma_assembly_failure(blocks, sources, i + 1);
    }
}

impl Entity {
    /// Assembles every render data source of a document and takes the
    /// translation of its root node.
    ///
    /// One failing source fails the whole document: the failure returned is that
    /// of the first source that does not assemble, and no object is returned
    /// beside it.
    pub fn new(
        data_blocks: Vec<DataBlock>,
        render_data_sources: Vec<RenderDataSource>,
        root_node: Option<RootNode>,
    ) -> (r: Result<Entity, ParseError>)
        ensures
            match converted(data_blocks@, render_data_sources@, root_node) {
                Ok(scene) => r is Ok && r->Ok_0@ == scene,
                Err(f) => r is Err && r->Err_0@ == f,
            },
            root_node is None && r is Ok ==> r->Ok_0@.translation == zero_translation(),
    {
        let ghost sources = render_data_sources@;
        let mut objects: Vec<Object> = Vec::new();
        assert(meshes(objects@) =~= Seq::empty());
        for source in it: render_data_sources
            invariant
                it.seq() == sources,
                all_assembled(data_blocks@, sources.take(it.index() as int)) == Ok::<_, Failure>(
                    meshes(objects@),
                ),
        {
            proof {
                assert(sources.take(it.index() + 1).drop_last() =~= sources.take(
                    it.index() as int,
                ));
                assert(sources.take(it.index() + 1).last() == source);
            }
            let ghost before = objects@;
            match Object::new(data_blocks.as_slice(), source) {
                Ok(object) => {
                    objects.push(object);
                    assert(meshes(objects@) =~= meshes(before).push(object@));
                },
                Err(e) => {
                    proof {
                        lemma_assembly_failure(data_blocks@, sources, it.index() + 1);
                    }
                    return Err(e);
                },
            }
        }
        assert(sources.take(sources.len() as int) =~= sources);
        let translation = Self::get_translation(&root_node);
        Ok(Entity { objects, translation })
    }

    /// The translation of a document. Without a root node it is exactly the
    /// zero vector, and so it is with a root node of no or of several render
    /// nodes.
    pub fn get_translation(root_node: &Option<RootNode>) -> (t: [Single; 3])
        ensures
            t@ == translation_of(*root_node),
            root_node is None ==> t@ == zero_translation(),
    {
        if let Some(node) = root_node {
            if node.render_nodes.len() == 1 {
                return node.render_nodes[0].transform.translation();
            }
        }
        let zero = Single { bits: 0 };
        let t = [zero, zero, zero];
        assert(t@ =~= zero_translation());
        t
    }
}

} // verus!
