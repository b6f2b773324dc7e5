//! Decoder for scene-graph asset documents: numeric streams embedded as text
//! are decoded into triangle meshes and written out in a plain-text format.
//!
//! The document model (`structure`) selects from a document the data blocks,
//! the drawable render data sources and the root node. The mesh assembler
//! (`object`, `entity`) resolves the references of each source to its blocks
//! and decodes them with the numeric codec (`parse`, on `text` and `single`).
//! The interchange writer (`interchange`, on `format`) turns a mesh into text,
//! and `export` flattens a whole document into buffers.
//!
//! Numbers with a fraction are held by their binary32 bit pattern, and every
//! step on them is integer arithmetic on that pattern.
//!
//! A document converts as a whole or not at all: the first object that fails
//! to assemble fails the document. What is merely irregular, such as an index
//! count that is no multiple of three, is returned beside the result for the
//! caller to report.

pub mod entity;
pub mod error;
pub mod export;
pub mod format;
pub mod interchange;
pub mod object;
pub mod parse;
pub mod single;
pub mod structure;
pub mod text;

use crate::entity::{
    all_assembled, converted, lemma_one_object_per_source, zero_translation, Entity, Scene,
};
use crate::error::{Failure, ParseError};
use crate::format::{decimal, push_decimal};
use crate::interchange::obj_text;
use crate::object::{
    assembled, find_block, gathered, runs, strip_marker, uv_stream, vertex_stream, with_stream,
    RenderType,
};
use crate::parse::reading;
use crate::single::Single;
use crate::structure::{
    declared_sources, has_payload, is_drawable, kept, lemma_blocks_of_one_library, lemma_no_root,
    lemma_sources_of_one_library, library_blocks, library_root, library_sources, parse_xml_file,
    retained_blocks, retained_sources, root_of, set_sources, DataBlock, PssgFile, RenderDataSource,
    RenderStream, SegmentSet,
};
use vstd::prelude::*;
use vstd::string::StringExecFns;

verus! {

/// The number of render data sources that a document declares, beside the
/// number that conversion found in it.
#[derive(Debug, Clone, Copy, PartialEq, Eq, Structural)]
pub struct SourceCount {
    pub declared: usize,
    pub retained: usize,
}

impl SourceCount {
    /// Whether the document holds as many render data sources as it declares.
    /// Where it does not, conversion still goes by the sources it holds.
    pub fn is_consistent(&self) -> (r: bool)
        ensures
            r == (self.declared == self.retained),
    {
        self.declared == self.retained
    }
}

/// One file of output: its name and its text.
#[derive(Debug)]
pub struct OutputFile {
    pub name: String,
    pub text: String,
}

/// What converting a document gives: the entity, the cross-check of its source
/// count, and one output file for each object.
#[derive(Debug)]
pub struct Conversion {
    pub entity: Entity,
    pub source_count: SourceCount,
    pub files: Vec<OutputFile>,
}

/// What a document converts to.
pub open spec fn document_scene(file: PssgFile) -> Result<Scene, Failure> {
    converted(
        retained_blocks(file.database.libraries@),
        retained_sources(file.database.libraries@),
        root_of(file.database.libraries@),
    )
}

/// The name of the output file of object `i` of `count`, counted from zero: the
/// base name and the suffix `.obj`, with a hyphen and the object's number,
/// counted from one, between them where there are several objects.
pub open spec fn output_name(stem: Seq<char>, count: nat, i: nat) -> Seq<char> {
    if count == 1 {
        stem + ".obj"@
    } else {
        stem + "-"@ + decimal(i + 1) + ".obj"@
    }
}

/// A document with one position block of one vertex, one block of one texture
/// coordinate and one triangle source of three indices that refers to both
/// converts to one object of that vertex, that coordinate and that face, with a
/// zero translation where no library of nodes is present.
///
/// The library of data blocks and the library of segment sets may stand in
/// either order and among any libraries of other types; so may the two blocks
/// and the two references.
pub proof fn lemma_single_object_document(
    file: PssgFile,
    a: int,
    b: int,
    position: DataBlock,
    coordinate: DataBlock,
    source: RenderDataSource,
    vertex: Seq<Single>,
    uv: Seq<Single>,
    indices: Seq<u32>,
)
    requires
        0 <= a < file.database.libraries@.len(),
        0 <= b < file.database.libraries@.len(),
        forall|i: int|
            0 <= i < file.database.libraries@.len() ==> ((
            #[trigger] file.database.libraries@[i]).library_type@ == "RENDERINTERFACEBOUND"@ <==> i
                == a),
        forall|i: int|
            0 <= i < file.database.libraries@.len() ==> ((
            #[trigger] file.database.libraries@[i]).library_type@ == "SEGMENTSET"@ <==> i == b),
        forall|i: int|
            0 <= i < file.database.libraries@.len() ==> (
            #[trigger] file.database.libraries@[i]).library_type@ != "NODE"@,
        file.database.libraries@[a].data_blocks@ == seq![position, coordinate]
            || file.database.libraries@[a].data_blocks@ == seq![coordinate, position],
        file.database.libraries@[b].segment_sets@.len() == 1,
        file.database.libraries@[b].segment_sets@[0].render_data_sources@ == seq![source],
        position.id@ != coordinate.id@,
        RenderType::of_tag(position.stream.render_type@) == RenderType::Position,
        position.element_count == 1,
        position.data is Some,
        vertex.len() == 3,
        reading::<Single>(position.data->0.text@, "float"@) == Ok::<_, Failure>(vertex),
        RenderType::of_tag(coordinate.stream.render_type@) == RenderType::TextureCoordinate,
        coordinate.stream.data_type@ == "half2"@,
        coordinate.element_count == 1,
        coordinate.data is Some,
        uv.len() == 2,
        reading::<Single>(coordinate.data->0.text@, "half"@) == Ok::<_, Failure>(uv),
        source.index_source.primitive@ == "triangles"@,
        source.index_source.index_data is Some,
        indices.len() == 3,
        reading::<u32>(
            source.index_source.index_data->0.text@,
            source.index_source.data_type@,
        ) == Ok::<_, Failure>(indices),
        source.streams@.len() == 2,
        (strip_marker(source.streams@[0].data_block@) == position.id@ && strip_marker(
            source.streams@[1].data_block@,
        ) == coordinate.id@) || (strip_marker(source.streams@[0].data_block@) == coordinate.id@
            && strip_marker(source.streams@[1].data_block@) == position.id@),
    ensures
        document_scene(file) is Ok,
        document_scene(file)->Ok_0.objects.len() == 1,
        document_scene(file)->Ok_0.objects[0].vertices == seq![vertex],
        document_scene(file)->Ok_0.objects[0].uvs == seq![uv],
        document_scene(file)->Ok_0.objects[0].faces == seq![indices],
        document_scene(file)->Ok_0.translation == zero_translation(),
{
    let libs = file.database.libraries@;
    // what the document is made of
    assert forall|i: int| 0 <= i < libs.len() && i != a implies library_blocks(
        #[trigger] libs[i],
    ).len() == 0 by {}
    assert forall|i: int| 0 <= i < libs.len() && i != b implies library_sources(
        #[trigger] libs[i],
    ).len() == 0 by {}
    assert forall|i: int| 0 <= i < libs.len() implies library_root(#[trigger] libs[i]) is None by {}
    lemma_blocks_of_one_library(libs, a);
    lemma_sources_of_one_library(libs, b);
    lemma_no_root(libs);
    let keep_block = |x: DataBlock| has_payload(x);
    let given = libs[a].data_blocks@;
    assert(kept(given, keep_block) == given) by {
        reveal_with_fuel(kept, 3);
        assert(given.drop_last().drop_last() =~= Seq::<DataBlock>::empty());
        assert(given.drop_last() =~= seq![given[0]]);
        assert(given =~= seq![given[0]].push(given[1]));
        assert(keep_block(given[0]) && keep_block(given[1]));
        assert(kept(given.drop_last().drop_last(), keep_block) =~= Seq::<DataBlock>::empty());
        assert(kept(given.drop_last(), keep_block) =~= seq![given[0]]);
    }
    let blocks = retained_blocks(libs);
    assert(blocks == given);
    let keep_source = |x: RenderDataSource| is_drawable(x);
    let sets = libs[b].segment_sets@;
    let drawn = sets[0].render_data_sources@;
    assert(kept(drawn, keep_source) =~= seq![source]) by {
        reveal_with_fuel(kept, 2);
        assert(drawn.drop_last() =~= Seq::<RenderDataSource>::empty());
        assert(keep_source(source));
        assert(drawn.last() == source);
    }
    assert(set_sources(sets) =~= seq![source]) by {
        reveal_with_fuel(set_sources, 2);
        assert(sets.drop_last() =~= Seq::<SegmentSet>::empty());
        assert(sets.last() == sets[0]);
    }
    let sources = retained_sources(libs);
    assert(sources == seq![source]);
    // the two blocks are found by their identifiers
    assert(find_block(blocks, position.id@) == Some(position) && find_block(
        blocks,
        coordinate.id@,
    ) == Some(coordinate)) by {
        reveal_with_fuel(find_block, 3);
        assert(blocks.drop_first() =~= seq![blocks[1]]);
    }
    // and each decodes to its one element
    assert(vertex_stream(position) == Ok::<_, Failure>(seq![vertex])) by {
        assert(runs(vertex, 3, 3) =~= seq![vertex]) by {
            assert(vertex.subrange(0, 3) =~= vertex);
        }
    }
    assert(uv_stream(coordinate) == Ok::<_, Failure>(seq![uv])) by {
        assert(runs(uv, 2, 2) =~= seq![uv]) by {
            assert(uv.subrange(0, 2) =~= uv);
        }
    }
    let streams = source.streams@;
    let none = (Seq::<Seq<Single>>::empty(), Seq::<Seq<Single>>::empty());
    assert(gathered(blocks, streams) == Ok::<_, Failure>((seq![vertex], seq![uv]))) by {
        reveal_with_fuel(gathered, 3);
        assert(streams.drop_last().drop_last() =~= Seq::<RenderStream>::empty());
        assert(streams.drop_last().last() == streams[0]);
        assert(streams.last() == streams[1]);
        assert(gathered(blocks, streams.drop_last().drop_last()) == Ok::<_, Failure>(none));
        if strip_marker(streams[0].data_block@) == position.id@ {
            assert(with_stream(blocks, none, streams[0]) == Ok::<_, Failure>(
                (none.0 + seq![vertex], none.1),
            ));
            assert(none.0 + seq![vertex] =~= seq![vertex]);
            assert(none.1 + seq![uv] =~= seq![uv]);
        } else {
            assert(with_stream(blocks, none, streams[0]) == Ok::<_, Failure>(
                (none.0, none.1 + seq![uv]),
            ));
            assert(none.0 + seq![vertex] =~= seq![vertex]);
            assert(none.1 + seq![uv] =~= seq![uv]);
        }
    }
    assert(runs(indices, 3, 3) =~= seq![indices]) by {
        assert(indices.subrange(0, 3) =~= indices);
    }
    assert(assembled(blocks, source) is Ok);
    assert(all_assembled(blocks, sources) is Ok) by {
        reveal_with_fuel(all_assembled, 2);
        assert(sources.drop_last() =~= Seq::<RenderDataSource>::empty());
        assert(sources.last() == source);
    }
    lemma_one_object_per_source(blocks, sources);
}

/// Converts a document into an entity.
///
/// Fails as the first render data source that does not assemble: one failing
/// object fails the whole document.
pub fn parse(file: PssgFile) -> (r: Result<(Entity, SourceCount), ParseError>)
    ensures
        match document_scene(file) {
            Ok(scene) => {
                &&& r is Ok
                &&& r->Ok_0.0@ == scene
                &&& r->Ok_0.1.declared == declared_sources(file.database.type_info@)
                &&& r->Ok_0.1.retained == scene.objects.len()
            },
            Err(f) => r is Err && r->Err_0@ == f,
        },
{
    let (blocks, sources, root, declared) = parse_xml_file(file);
    let retained = sources.len();
    proof {
        if all_assembled(blocks@, sources@) is Ok {
            lemma_one_object_per_source(blocks@, sources@);
        }
    }
    match Entity::new(blocks, sources, root) {
        Ok(entity) => Ok((entity, SourceCount { declared, retained })),
        Err(e) => Err(e),
    }
}

fn file_name(stem: &str, count: usize, i: usize) -> (name: String)
    requires
        i < count,
    ensures
        name@ == output_name(stem@, count as nat, i as nat),
{
    let mut name = String::new();
    name.append(stem);
    if count != 1 {
        name.append("-");
        push_decimal(&mut name, i as u128 + 1);
    }
    name.append(".obj");
    assert(name@ =~= output_name(stem@, count as nat, i as nat));
    name
}

/// Converts a document and writes each of its objects as text, under a file
/// name made of `stem`.
///
/// Fails as `parse` does, and then gives no file at all.
pub fn convert_file(file: PssgFile, stem: &str) -> (r: Result<Conversion, ParseError>)
    ensures
        match document_scene(file) {
            Ok(scene) => {
                &&& r is Ok
                &&& r->Ok_0.entity@ == scene
                &&& r->Ok_0.source_count.declared == declared_sources(file.database.type_info@)
                &&& r->Ok_0.source_count.retained == scene.objects.len()
                &&& r->Ok_0.files@.len() == scene.objects.len()
                &&& forall|i: int|
                    0 <= i < scene.objects.len() ==> {
                        let f = #[trigger] r->Ok_0.files@[i];
                        f.name@ == output_name(stem@, scene.objects.len(), i as nat) && f.text@
                            == obj_text(scene.objects[i])
                    }
            },
            Err(f) => r is Err && r->Err_0@ == f,
        },
{
    let (entity, source_count) = match parse(file) {
        Ok(p) => p,
        Err(e) => {
            return Err(e);
        },
    };
    let mut files: Vec<OutputFile> = Vec::new();
    let count = entity.objects.len();
    let mut i: usize = 0;
    while i < count
        invariant
            i <= count,
            count == entity.objects@.len(),
            files@.len() == i,
            forall|k: int|
                0 <= k < i ==> {
                    let f = #[trigger] files@[k];
                    f.name@ == output_name(stem@, count as nat, k as nat) && f.text@ == obj_text(
                        entity.objects@[k]@,
                    )
                },
        decreases count - i,
    {
        let name = file_name(stem, count, i);
        let text = entity.objects[i].to_obj();
        files.push(OutputFile { name, text });
        i += 1;
    }
    Ok(Conversion { entity, source_count, files })
}

} // verus!
