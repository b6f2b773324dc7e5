//! The document model: the part of an asset document that conversion reads.

use crate::error::{ErrorKind, Failure, ParseError};
use crate::parse::{read, reading, yields};
use crate::single::Single;
use crate::text::same_text;
use vstd::prelude::*;

verus! {

/// An asset document.
#[derive(Debug, Clone)]
pub struct PssgFile {
    pub database: PssgDatabase,
}

/// The database root: a type-count table and the typed libraries.
#[derive(Debug, Clone)]
pub struct PssgDatabase {
    pub type_info: Vec<TypeInfo>,
    pub libraries: Vec<Library>,
}

/// One row of the type-count table.
#[derive(Debug, Clone)]
pub struct TypeInfo {
    pub name: String,
    pub type_count: usize,
}

/// A library of the document, with the children that conversion reads.
#[derive(Debug, Clone)]
pub struct Library {
    pub library_type: String,
    pub data_blocks: Vec<DataBlock>,
    pub segment_sets: Vec<SegmentSet>,
    pub root_node: Option<RootNode>,
}

/// A raw numeric payload with its identifier, declared count and type tags.
#[derive(Debug, Clone)]
pub struct DataBlock {
    pub element_count: usize,
    pub stream: DataBlockStream,
    pub data: Option<DataBlockData>,
    pub id: String,
}

/// The semantic and element type tags of a data block.
#[derive(Debug, Clone)]
pub struct DataBlockStream {
    pub render_type: String,
    pub data_type: String,
}

/// The payload text of a data block.
#[derive(Debug, Clone)]
pub struct DataBlockData {
    pub text: String,
}

/// A set of drawable units.
#[derive(Debug, Clone)]
pub struct SegmentSet {
    pub render_data_sources: Vec<RenderDataSource>,
}

/// One drawable unit: an index source and references to data blocks.
#[derive(Debug, Clone)]
pub struct RenderDataSource {
    pub index_source: RenderIndexSource,
    pub streams: Vec<RenderStream>,
}

/// A triangle index stream.
#[derive(Debug, Clone)]
pub struct RenderIndexSource {
    pub primitive: String,
    pub count: usize,
    pub index_data: Option<IndexSourceData>,
    pub data_type: String,
}

/// The payload text of an index source.
#[derive(Debug, Clone)]
pub struct IndexSourceData {
    pub text: String,
}

/// A reference to a data block: its identifier behind a marker character.
#[derive(Debug, Clone)]
pub struct RenderStream {
    pub data_block: String,
}

/// The root of the scene node hierarchy, with its render nodes.
#[derive(Debug, Clone)]
pub struct RootNode {
    pub render_nodes: Vec<RenderNode>,
}

/// A node that carries a transform.
#[derive(Debug, Clone)]
pub struct RenderNode {
    pub transform: Transform,
}

/// A 4x4 matrix in row-major order.
#[derive(Debug, Clone)]
pub struct Transform {
    pub matrix: [[Single; 4]; 4],
}

/// The failure of a matrix text that decodes to another number of entries than
/// sixteen.
pub open spec fn wrong_matrix_size() -> Failure {
    (ErrorKind::CountMismatch, "Matrix does not hold 16 entries"@)
}

/// The matrix whose rows are the consecutive runs of four of `data`.
pub open spec fn is_matrix_of(m: [[Single; 4]; 4], data: Seq<Single>) -> bool {
    forall|i: int, j: int| 0 <= i < 4 && 0 <= j < 4 ==> (#[trigger] m[i][j]) == data[4 * i + j]
}

impl Transform {
    /// The translation of the transform: the first three entries of row 3.
    pub open spec fn spec_translation(self) -> Seq<Single> {
        seq![self.matrix[3][0], self.matrix[3][1], self.matrix[3][2]]
    }

    /// The identity matrix.
    pub fn identity() -> (t: Transform)
        ensures
            forall|i: int, j: int|
                0 <= i < 4 && 0 <= j < 4 ==> (#[trigger] t.matrix[i][j]).bits == if i == j {
                    0x3f800000u32
                } else {
                    0u32
                },
    {
        let o = Single { bits: 0 };
        let l = Single { bits: 0x3f800000 };
        Transform { matrix: [[l, o, o, o], [o, l, o, o], [o, o, l, o], [o, o, o, l]] }
    }

    /// Reads the sixteen entries of a matrix from one text field, row by row.
    ///
    /// Fails as the codec does on the text; a text that decodes to another number
    /// of entries than sixteen is a count mismatch.
    pub fn from_text(text: &str) -> (r: Result<Transform, ParseError>)
        ensures
            match reading::<Single>(text@, "float"@) {
                Ok(data) => if data.len() == 16 {
                    r is Ok && is_matrix_of(r->Ok_0.matrix, data)
                } else {
                    r is Err && r->Err_0@ == wrong_matrix_size()
                },
                Err(f) => r is Err && r->Err_0@ == f,
            },
    {
        let d: Vec<Single> = match read::<Single>(text, "float") {
            Ok(d) => d,
            Err(e) => {
                return Err(e);
            },
        };
        if d.len() != 16 {
            return Err(
                ParseError::of_kind(ErrorKind::CountMismatch, "Matrix does not hold 16 entries"),
            );
        }
        Ok(
            Transform {
                matrix: [
                    [d[0], d[1], d[2], d[3]],
                    [d[4], d[5], d[6], d[7]],
                    [d[8], d[9], d[10], d[11]],
                    [d[12], d[13], d[14], d[15]],
                ],
            },
        )
    }

    /// The translation of the transform; rotation and scale are left aside.
    pub fn translation(&self) -> (t: [Single; 3])
        ensures
            t@ == self.spec_translation(),
    {
        let t = [self.matrix[3][0], self.matrix[3][1], self.matrix[3][2]];
        assert(t@ =~= self.spec_translation());
        t
    }
}

/// The declared number of render data sources: the count of the first row of
/// the type-count table that is named `RENDERDATASOURCE`, and zero without one.
pub open spec fn declared_sources(table: Seq<TypeInfo>) -> nat
    decreases table.len(),
{
    if table.len() == 0 {
        0
    } else if table[0].name@ == "RENDERDATASOURCE"@ {
        table[0].type_count as nat
    } else {
        declared_sources(table.drop_first())
    }
}

/// A data block is kept when it carries a payload.
pub open spec fn has_payload(b: DataBlock) -> bool {
    b.data is Some
}

/// A render data source is kept when its index source carries a payload and its
/// primitive kind is `triangles`.
pub open spec fn is_drawable(s: RenderDataSource) -> bool {
    s.index_source.index_data is Some && s.index_source.primitive@ == "triangles"@
}

/// The members of `items` for which `keep` holds, in order.
pub open spec fn kept<A>(items: Seq<A>, keep: spec_fn(A) -> bool) -> Seq<A>
    decreases items.len(),
{
    if items.len() == 0 {
        Seq::empty()
    } else if keep(items.last()) {
        kept(items.drop_last(), keep).push(items.last())
    } else {
        kept(items.drop_last(), keep)
    }
}

/// The drawable render data sources of a list of segment sets, in order.
pub open spec fn set_sources(sets: Seq<SegmentSet>) -> Seq<RenderDataSource>
    decreases sets.len(),
{
    if sets.len() == 0 {
        Seq::empty()
    } else {
        set_sources(sets.drop_last()) + kept(
            sets.last().render_data_sources@,
            |s: RenderDataSource| is_drawable(s),
        )
    }
}

/// The data blocks that a library contributes: those with a payload, where the
/// library is of type `RENDERINTERFACEBOUND`, and none otherwise.
pub open spec fn library_blocks(lib: Library) -> Seq<DataBlock> {
    if lib.library_type@ == "RENDERINTERFACEBOUND"@ {
        kept(lib.data_blocks@, |b: DataBlock| has_payload(b))
    } else {
        Seq::empty()
    }
}

/// The render data sources that a library contributes: the drawable ones of its
/// segment sets, where the library is of type `SEGMENTSET`, and none otherwise.
pub open spec fn library_sources(lib: Library) -> Seq<RenderDataSource> {
    if lib.library_type@ == "SEGMENTSET"@ {
        set_sources(lib.segment_sets@)
    } else {
        Seq::empty()
    }
}

/// The root node that a library contributes: its own, where the library is of
/// type `NODE`.
pub open spec fn library_root(lib: Library) -> Option<RootNode> {
    if lib.library_type@ == "NODE"@ {
        lib.root_node
    } else {
        None
    }
}

/// The data blocks of a document, library by library.
pub open spec fn retained_blocks(libs: Seq<Library>) -> Seq<DataBlock>
    decreases libs.len(),
{
    if libs.len() == 0 {
        Seq::empty()
    } else {
        retained_blocks(libs.drop_last()) + library_blocks(libs.last())
    }
}

/// The render data sources of a document, library by library.
pub open spec fn retained_sources(libs: Seq<Library>) -> Seq<RenderDataSource>
    decreases libs.len(),
{
    if libs.len() == 0 {
        Seq::empty()
    } else {
        retained_sources(libs.drop_last()) + library_sources(libs.last())
    }
}

/// The root node of a document: that of the first library that contributes one.
pub open spec fn root_of(libs: Seq<Library>) -> Option<RootNode>
    decreases libs.len(),
{
    if libs.len() == 0 {
        None
    } else if root_of(libs.drop_last()) is Some {
        root_of(libs.drop_last())
    } else {
        library_root(libs.last())
    }
}

/// Libraries that contribute no data block give none.
pub proof fn lemma_no_blocks(libs: Seq<Library>)
    requires
        forall|i: int| 0 <= i < libs.len() ==> library_blocks(#[trigger] libs[i]).len() == 0,
    ensures
        retained_blocks(libs).len() == 0,
    decreases libs.len(),
{
    if libs.len() > 0 {
        assert(library_blocks(libs[libs.len() - 1]).len() == 0);
        assert forall|i: int| 0 <= i < libs.drop_last().len() implies library_blocks(
            #[trigger] libs.drop_last()[i],
        ).len() == 0 by {
            assert(libs.drop_last()[i] == libs[i]);
        }
        lemma_no_blocks(libs.drop_last());
    }
}

/// Where one library alone contributes data blocks, the document's blocks are
/// that library's, wherever among the others it stands.
pub proof fn lemma_blocks_of_one_library(libs: Seq<Library>, a: int)
    requires
        0 <= a < libs.len(),
        forall|i: int|
            0 <= i < libs.len() && i != a ==> library_blocks(#[trigger] libs[i]).len() == 0,
    ensures
        retained_blocks(libs) == library_blocks(libs[a]),
    decreases libs.len(),
{
    let front = libs.drop_last();
    assert forall|i: int| 0 <= i < front.len() && i != a implies library_blocks(
        #[trigger] front[i],
    ).len() == 0 by {
        assert(front[i] == libs[i]);
    }
    if a == libs.len() - 1 {
        lemma_no_blocks(front);
        assert(retained_blocks(libs) =~= library_blocks(libs[a]));
    } else {
        assert(front[a] == libs[a]);
        lemma_blocks_of_one_library(front, a);
        assert(library_blocks(libs[libs.len() - 1]).len() == 0);
        assert(retained_blocks(libs) =~= library_blocks(libs[a]));
    }
}

/// Libraries that contribute no render data source give none.
pub proof fn lemma_no_sources(libs: Seq<Library>)
    requires
        forall|i: int| 0 <= i < libs.len() ==> library_sources(#[trigger] libs[i]).len() == 0,
    ensures
        retained_sources(libs).len() == 0,
    decreases libs.len(),
{
    if libs.len() > 0 {
        assert(library_sources(libs[libs.len() - 1]).len() == 0);
        assert forall|i: int| 0 <= i < libs.drop_last().len() implies library_sources(
            #[trigger] libs.drop_last()[i],
        ).len() == 0 by {
            assert(libs.drop_last()[i] == libs[i]);
        }
        lemma_no_sources(libs.drop_last());
    }
}

/// Where one library alone contributes render data sources, the document's
/// sources are that library's, wherever among the others it stands.
pub proof fn lemma_sources_of_one_library(libs: Seq<Library>, b: int)
    requires
        0 <= b < libs.len(),
        forall|i: int|
            0 <= i < libs.len() && i != b ==> library_sources(#[trigger] libs[i]).len() == 0,
    ensures
        retained_sources(libs) == library_sources(libs[b]),
    decreases libs.len(),
{
    let front = libs.drop_last();
    assert forall|i: int| 0 <= i < front.len() && i != b implies library_sources(
        #[trigger] front[i],
    ).len() == 0 by {
        assert(front[i] == libs[i]);
    }
    if b == libs.len() - 1 {
        lemma_no_sources(front);
        assert(retained_sources(libs) =~= library_sources(libs[b]));
    } else {
        assert(front[b] == libs[b]);
        lemma_sources_of_one_library(front, b);
        assert(library_sources(libs[libs.len() - 1]).len() == 0);
        assert(retained_sources(libs) =~= library_sources(libs[b]));
    }
}

/// A document without a library that contributes a root node has none.
pub proof fn lemma_no_root(libs: Seq<Library>)
    requires
        forall|i: int| 0 <= i < libs.len() ==> library_root(#[trigger] libs[i]) is None,
    ensures
        root_of(libs) is None,
    decreases libs.len(),
{
    if libs.len() > 0 {
        assert(library_root(libs[libs.len() - 1]) is None);
        assert forall|i: int| 0 <= i < libs.drop_last().len() implies library_root(
            #[trigger] libs.drop_last()[i],
        ) is None by {
            assert(libs.drop_last()[i] == libs[i]);
        }
        lemma_no_root(libs.drop_last());
    }
}

fn declared_count(table: &Vec<TypeInfo>) -> (n: usize)
    ensures
        n == declared_sources(table@),
{
    let mut i: usize = 0;
    assert(table@.skip(0) =~= table@);
    while i < table.len()
        invariant
            i <= table.len(),
            declared_sources(table@) == declared_sources(table@.skip(i as int)),
        decreases table.len() - i,
    {
        let ghost rest = table@.skip(i as int);
        assert(rest[0] == table@[i as int]);
        assert(rest.drop_first() =~= table@.skip(i + 1));
        if same_text(table[i].name.as_str(), "RENDERDATASOURCE") {
            return table[i].type_count;
        }
        i += 1;
    }
    assert(table@.skip(i as int).len() == 0);
    0
}

fn keep_blocks(blocks: Vec<DataBlock>, out: &mut Vec<DataBlock>)
    ensures
        final(out)@ == old(out)@ + kept(blocks@, |b: DataBlock| has_payload(b)),
{
    let ghost all = blocks@;
    let ghost keep = |b: DataBlock| has_payload(b);
    let ghost before = out@;
    for b in it: blocks
        invariant
            it.seq() == all,
            keep == |b: DataBlock| has_payload(b),
            out@ == before + kept(all.take(it.index() as int), keep),
    {
        proof {
            let next = all.take(it.index() + 1);
            assert(next.drop_last() =~= all.take(it.index() as int));
            assert(next.last() == b);
            assert(keep(b) == has_payload(b));
            assert(before + kept(next.drop_last(), keep).push(b) =~= (before + kept(
                next.drop_last(),
                keep,
            )).push(b));
        }
        if b.data.is_some() {
            out.push(b);
        }
    }
    assert(all.take(all.len() as int) =~= all);
}

fn keep_sources(sets: Vec<SegmentSet>, out: &mut Vec<RenderDataSource>)
    ensures
        final(out)@ == old(out)@ + set_sources(sets@),
{
    let ghost all = sets@;
    let ghost before = out@;
    for set in it: sets
        invariant
            it.seq() == all,
            out@ == before + set_sources(all.take(it.index() as int)),
    {
        let ghost keep = |s: RenderDataSource| is_drawable(s);
        let ghost items = set.render_data_sources@;
        let ghost start = out@;
        proof {
            let next = all.take(it.index() + 1);
            assert(next.drop_last() =~= all.take(it.index() as int));
            assert(next.last() == set);
        }
        for s in inner: set.render_data_sources
            invariant
                inner.seq() == items,
                keep == |s: RenderDataSource| is_drawable(s),
                out@ == start + kept(items.take(inner.index() as int), keep),
        {
            proof {
                let next = items.take(inner.index() + 1);
                assert(next.drop_last() =~= items.take(inner.index() as int));
                assert(next.last() == s);
                assert(keep(s) == is_drawable(s));
                assert(start + kept(next.drop_last(), keep).push(s) =~= (start + kept(
                    next.drop_last(),
                    keep,
                )).push(s));
            }
            if s.index_source.index_data.is_some() && same_text(
                s.index_source.primitive.as_str(),
                "triangles",
            ) {
                out.push(s);
            }
        }
        assert(items.take(items.len() as int) =~= items);
        assert(before + set_sources(all.take(it.index() as int)) + kept(items, keep) =~= before + (
        set_sources(all.take(it.index() as int)) + kept(items, keep)));
    }
    assert(all.take(all.len() as int) =~= all);
}

/// Selects from a document what conversion reads: the data blocks that carry a
/// payload, the drawable render data sources, the root node, and the number of
/// render data sources that the document declares.
///
/// Libraries are selected by exact match of their type tag; a document without
/// a matching library gives empty collections and no root node. The declared
/// number is for the caller to hold against the number of sources returned: a
/// difference is a warning, and conversion goes by the sources returned.
pub fn parse_xml_file(file: PssgFile) -> (r: (
    Vec<DataBlock>,
    Vec<RenderDataSource>,
    Option<RootNode>,
    usize,
))
    ensures
        r.0@ == retained_blocks(file.database.libraries@),
        r.1@ == retained_sources(file.database.libraries@),
        r.2 == root_of(file.database.libraries@),
        r.3 == declared_sources(file.database.type_info@),
{
    let declared = declared_count(&file.database.type_info);
    let ghost libs = file.database.libraries@;
    let mut blocks: Vec<DataBlock> = Vec::new();
    let mut sources: Vec<RenderDataSource> = Vec::new();
    let mut root: Option<RootNode> = None;
    for lib in it: file.database.libraries
        invariant
            it.seq() == libs,
            blocks@ == retained_blocks(libs.take(it.index() as int)),
            sources@ == retained_sources(libs.take(it.index() as int)),
            root == root_of(libs.take(it.index() as int)),
    {
        proof {
            let next = libs.take(it.index() + 1);
            assert(next.drop_last() =~= libs.take(it.index() as int));
            assert(next.last() == lib);
        }
        let ghost prev = libs.take(it.index() as int);
        if same_text(lib.library_type.as_str(), "RENDERINTERFACEBOUND") {
            keep_blocks(lib.data_blocks, &mut blocks);
        }
        if same_text(lib.library_type.as_str(), "SEGMENTSET") {
            keep_sources(lib.segment_sets, &mut sources);
        }
        if same_text(lib.library_type.as_str(), "NODE") && root.is_none() {
            root = lib.root_node;
        }
        assert(blocks@ =~= retained_blocks(prev) + library_blocks(lib));
        assert(sources@ =~= retained_sources(prev) + library_sources(lib));
    }
    assert(libs.take(libs.len() as int) =~= libs);
    (blocks, sources, root, declared)
}

} // verus!
