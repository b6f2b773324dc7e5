//! The mesh assembler: one drawable unit and the data blocks it refers to
//! become one mesh.

use crate::error::{ErrorKind, Failure, ParseError};
use crate::format::{decimal, push_decimal};
use crate::parse::{read, reading, DataType};
use crate::single::Single;
use crate::structure::{DataBlock, RenderDataSource, RenderIndexSource, RenderStream};
use crate::text::{chars_of, same_from, same_text};
use vstd::prelude::*;
use vstd::string::StringExecFns;

verus! {

/// What a data block holds, by its render-type tag.
#[derive(Debug, Clone, Copy, PartialEq, Eq, Structural)]
pub enum RenderType {
    /// Vertex positions: the tags `Vertex` and `SkinnableVertex`.
    Position,
    /// Texture coordinates: the tag `ST`.
    TextureCoordinate,
    /// Any other stream; such streams are not read.
    Other,
}

impl RenderType {
    /// The render type that a tag names; tags are matched exactly.
    pub open spec fn of_tag(tag: Seq<char>) -> RenderType {
        if tag == "Vertex"@ || tag == "SkinnableVertex"@ {
            RenderType::Position
        } else if tag == "ST"@ {
            RenderType::TextureCoordinate
        } else {
            RenderType::Other
        }
    }

    /// The render type that `tag` names.
    pub fn from_tag(tag: &str) -> (t: RenderType)
        ensures
            t == Self::of_tag(tag@),
    {
        if same_text(tag, "Vertex") || same_text(tag, "SkinnableVertex") {
            RenderType::Position
        } else if same_text(tag, "ST") {
            RenderType::TextureCoordinate
        } else {
            RenderType::Other
        }
    }
}

/// The irregularities of an index source that are reported and do not stop
/// assembly.
#[derive(Debug, Clone, Copy, PartialEq, Eq, Structural)]
pub struct Advisories {
    /// The index data-type tag is neither `uchar` nor `ushort`.
    pub unexpected_index_type: bool,
    /// The declared index count or the number of decoded indices is not a
    /// multiple of three.
    pub not_multiple_of_three: bool,
    /// The number of triangles decoded differs from a third of the declared
    /// index count.
    pub face_count_mismatch: bool,
}

/// A mesh, as sequences: positions of three numbers, texture coordinates of
/// two, faces of three vertex indices, and what was advised.
pub struct Mesh {
    pub vertices: Seq<Seq<Single>>,
    pub uvs: Seq<Seq<Single>>,
    pub faces: Seq<Seq<u32>>,
    pub advisories: Advisories,
}

/// An assembled object.
#[derive(Debug)]
pub struct Object {
    pub vertices: Vec<[Single; 3]>,
    pub uvs: Vec<[Single; 2]>,
    pub faces: Vec<[u32; 3]>,
    pub advisories: Advisories,
}

/// The contents of a list of fixed-size rows.
pub open spec fn rows<T, const N: usize>(v: Seq<[T; N]>) -> Seq<Seq<T>> {
    Seq::new(v.len(), |i: int| v[i]@)
}

impl View for Object {
    type V = Mesh;

    open spec fn view(&self) -> Mesh {
        Mesh {
            vertices: rows(self.vertices@),
            uvs: rows(self.uvs@),
            faces: rows(self.faces@),
            advisories: self.advisories,
        }
    }
}

/// The consecutive runs of `width` members of `data`, cut down to the first
/// `keep` of each; a rest of fewer than `width` members gives no run.
pub open spec fn runs<T>(data: Seq<T>, width: int, keep: int) -> Seq<Seq<T>> {
    Seq::new((data.len() / width as nat) as nat, |i: int| data.subrange(width * i, width * i + keep))
}

/// The elements of a decoded stream, held to the declared count: another number
/// of whole elements is the failure `mismatch`, and a rest behind the last whole
/// element is the failure `leftover`.
pub open spec fn counted<T>(
    data: Seq<T>,
    width: int,
    keep: int,
    declared: nat,
    mismatch: Failure,
    leftover: Failure,
) -> Result<Seq<Seq<T>>, Failure> {
    if data.len() / (width as nat) != declared {
        Err(mismatch)
    } else if data.len() % (width as nat) != 0 {
        Err(leftover)
    } else {
        Ok(runs(data, width, keep))
    }
}

/// The failure of a block or index source without a payload, with the cause
/// that says which stream was to be read.
pub open spec fn missing(cause: Seq<char>) -> Failure {
    (ErrorKind::MissingData, cause)
}

/// The failure of positions that are not as many as declared.
pub open spec fn vertex_mismatch() -> Failure {
    (ErrorKind::CountMismatch, "Vertex count does not match element count"@)
}

/// The failure of texture coordinates that are not as many as declared; the
/// cause gives both numbers.
pub open spec fn uv_mismatch(decoded: nat, declared: nat) -> Failure {
    (
        ErrorKind::CountMismatch,
        "UV count "@ + decimal(decoded) + " does not match element count "@ + decimal(declared),
    )
}

/// The failure of a stream with numbers left over behind its last whole
/// element, with the cause that says which stream was read.
pub open spec fn leftover(cause: Seq<char>) -> Failure {
    (ErrorKind::Incomplete, cause)
}

/// The number of half-precision numbers that one texture coordinate takes: two
/// under the sub-type `half2`, four under any other, of which the last two are
/// left aside.
pub open spec fn uv_width(block: DataBlock) -> int {
    if block.stream.data_type@ == "half2"@ {
        2
    } else {
        4
    }
}

/// The vertex positions of a block: its payload read as single-precision
/// numbers, three to a position.
pub open spec fn vertex_stream(block: DataBlock) -> Result<Seq<Seq<Single>>, Failure> {
    match block.data {
        None => Err(missing("Missing vertex block data"@)),
        Some(d) => match reading::<Single>(d.text@, "float"@) {
            Err(f) => Err(f),
            Ok(data) => counted(
                data,
                3,
                3,
                block.element_count as nat,
                vertex_mismatch(),
                leftover("Vertex data ends inside an element"@),
            ),
        },
    }
}

/// The texture coordinates of a block: its payload read as half-precision
/// numbers, of which each coordinate takes the first two of its run.
pub open spec fn uv_stream(block: DataBlock) -> Result<Seq<Seq<Single>>, Failure> {
    match block.data {
        None => Err(missing("Missing uv block data"@)),
        Some(d) => match reading::<Single>(d.text@, "half"@) {
            Err(f) => Err(f),
            Ok(data) => counted(
                data,
                uv_width(block),
                2,
                block.element_count as nat,
                uv_mismatch(data.len() / (uv_width(block) as nat), block.element_count as nat),
                leftover("UV data ends inside an element"@),
            ),
        },
    }
}

/// The indices of an index source: its payload read under its own data-type tag.
pub open spec fn index_stream(source: RenderIndexSource) -> Result<Seq<u32>, Failure> {
    match source.index_data {
        None => Err(missing("Missing faces block data"@)),
        Some(d) => reading::<u32>(d.text@, source.data_type@),
    }
}

/// What is advised of an index source that decoded to `n` indices.
pub open spec fn advisories_of(source: RenderIndexSource, n: nat) -> Advisories {
    Advisories {
        unexpected_index_type: DataType::of_tag(source.data_type@) != DataType::UChar
            && DataType::of_tag(source.data_type@) != DataType::UShort,
        not_multiple_of_three: source.count % 3 != 0 || n % 3 != 0,
        face_count_mismatch: source.count / 3 != n / 3,
    }
}

/// Cuts `data` into its consecutive runs of `width`, keeping the first `N` of
/// each.
fn group<T: Copy, const N: usize>(data: &Vec<T>, width: usize) -> (r: Vec<[T; N]>)
    requires
        0 < N <= width,
    ensures
        rows(r@) == runs(data@, width as int, N as int),
{
    let n = data.len() / width;
    let mut out: Vec<[T; N]> = Vec::new();
    let mut i: usize = 0;
    if n == 0 {
        assert(rows(out@) =~= runs(data@, width as int, N as int));
        return out;
    }
    let mut row: [T; N] = [data[0];N];
    while i < n
        invariant
            i <= n,
            n == data.len() / width,
            0 < N <= width,
            out@.len() == i,
            forall|k: int|
                0 <= k < i ==> (#[trigger] out@[k])@ == data@.subrange(width * k, width * k + N),
        decreases n - i,
    {
        assert(i * width + width <= data.len()) by (nonlinear_arith)
            requires
                i < n,
                n == data.len() / width,
                width > 0,
        ;
        let mut j: usize = 0;
        while j < N
            invariant
                j <= N,
                0 < N <= width,
                i * width + width <= data.len(),
                forall|k: int| 0 <= k < j ==> (#[trigger] row@[k]) == data@[i * width + k],
            decreases N - j,
        {
            row[j] = data[i * width + j];
            j += 1;
        }
        assert(row@ =~= data@.subrange(width * i, width * i + N)) by {
            assert(width * i == i * width) by (nonlinear_arith);
        }
        out.push(row);
        i += 1;
    }
    assert(rows(out@) =~= runs(data@, width as int, N as int));
    out
}

/// The reference of a render stream without its leading marker `#`.
pub open spec fn strip_marker(reference: Seq<char>) -> Seq<char> {
    if reference.len() > 0 && reference[0] == '#' {
        reference.skip(1)
    } else {
        reference
    }
}

/// The first block with the given identifier.
pub open spec fn find_block(blocks: Seq<DataBlock>, id: Seq<char>) -> Option<DataBlock>
    decreases blocks.len(),
{
    if blocks.len() == 0 {
        None
    } else if blocks[0].id@ == id {
        Some(blocks[0])
    } else {
        find_block(blocks.drop_first(), id)
    }
}

/// What one render stream adds to the positions and texture coordinates
/// gathered so far. A reference that no block answers to, and a block of
/// another render type, add nothing.
pub open spec fn with_stream(
    blocks: Seq<DataBlock>,
    so_far: (Seq<Seq<Single>>, Seq<Seq<Single>>),
    stream: RenderStream,
) -> Result<(Seq<Seq<Single>>, Seq<Seq<Single>>), Failure> {
    match find_block(blocks, strip_marker(stream.data_block@)) {
        None => Ok(so_far),
        Some(b) => match RenderType::of_tag(b.stream.render_type@) {
            RenderType::Position => match vertex_stream(b) {
                Err(k) => Err(k),
                Ok(v) => Ok((so_far.0 + v, so_far.1)),
            },
            RenderType::TextureCoordinate => match uv_stream(b) {
                Err(k) => Err(k),
                Ok(u) => Ok((so_far.0, so_far.1 + u)),
            },
            RenderType::Other => Ok(so_far),
        },
    }
}

/// The positions and texture coordinates that a list of render streams gives,
/// taken in order; the first stream that fails decides the failure.
pub open spec fn gathered(blocks: Seq<DataBlock>, streams: Seq<RenderStream>) -> Result<
    (Seq<Seq<Single>>, Seq<Seq<Single>>),
    Failure,
>
    decreases streams.len(),
{
    if streams.len() == 0 {
        Ok((Seq::empty(), Seq::empty()))
    } else {
        match gathered(blocks, streams.drop_last()) {
            Err(k) => Err(k),
            Ok(so_far) => with_stream(blocks, so_far, streams.last()),
        }
    }
}

/// The mesh of one render data source: what its streams give, then its faces,
/// the indices taken three at a time in the order of the stream. Indices left
/// over behind the last whole triangle are dropped and advised of.
pub open spec fn assembled(blocks: Seq<DataBlock>, source: RenderDataSource) -> Result<
    Mesh,
    Failure,
> {
    match gathered(blocks, source.streams@) {
        Err(k) => Err(k),
        Ok(g) => match index_stream(source.index_source) {
            Err(k) => Err(k),
            Ok(indices) => Ok(
                Mesh {
                    vertices: g.0,
                    uvs: g.1,
                    faces: runs(indices, 3, 3),
                    advisories: advisories_of(source.index_source, indices.len()),
                },
            ),
        },
    }
}

/// Whether an outcome is the one that was specified: rows with the same
/// contents, or the same failure, by kind and by cause.
pub open spec fn gives<T, const N: usize>(
    r: Result<Vec<[T; N]>, ParseError>,
    s: Result<Seq<Seq<T>>, Failure>,
) -> bool {
    match s {
        Ok(v) => r is Ok && rows(r->Ok_0@) == v,
        Err(f) => r is Err && r->Err_0@ == f,
    }
}

fn uv_mismatch_error(decoded: usize, declared: usize) -> (e: ParseError)
    ensures
        e@ == uv_mismatch(decoded as nat, declared as nat),
{
    let mut msg = String::new();
    msg.append("UV count ");
    push_decimal(&mut msg, decoded as u128);
    msg.append(" does not match element count ");
    push_decimal(&mut msg, declared as u128);
    assert(msg@ =~= uv_mismatch(decoded as nat, declared as nat).1);
    ParseError { kind: ErrorKind::CountMismatch, msg }
}

/// Cuts a stream of indices into triangles: consecutive runs of three, in the
/// order of the stream. A stream of `n` indices gives `n / 3` triangles,
/// rounded down; what is left over is dropped.
pub fn group_faces(indices: &Vec<u32>) -> (faces: Vec<[u32; 3]>)
    ensures
        faces@.len() == indices@.len() / 3,
        forall|i: int, j: int|
            0 <= i < faces@.len() && 0 <= j < 3 ==> (#[trigger] faces@[i]@[j]) == indices@[3 * i
                + j],
        rows(faces@) == runs(indices@, 3, 3),
{
    let faces = group::<u32, 3>(indices, 3);
    assert(rows(faces@).len() == faces@.len());
    assert forall|i: int, j: int| 0 <= i < faces@.len() && 0 <= j < 3 implies (
    #[trigger] faces@[i]@[j]) == indices@[3 * i + j] by {
        assert(rows(faces@)[i] == faces@[i]@);
        assert(runs(indices@, 3, 3)[i] == indices@.subrange(3 * i, 3 * i + 3));
    }
    faces
}

/// Runs that are kept whole take up all of the data: laid one behind the other
/// they give the data back, where its length is a multiple of the width.
pub proof fn lemma_runs_cover<T>(data: Seq<T>, width: int)
    requires
        width > 0,
        data.len() % (width as nat) == 0,
    ensures
        runs(data, width, width).flatten() == data,
    decreases data.len(),
{
    let len = data.len() as int;
    let n = len / width;
    let all = runs(data, width, width);
    assert(len == width * n) by (nonlinear_arith)
        requires
            width > 0,
            len % width == 0,
            n == len / width,
    ;
    assert(n >= 0) by (nonlinear_arith)
        requires
            width > 0,
            len >= 0,
            n == len / width,
    ;
    assert(all.len() == n);
    if n == 0 {
        assert(len == 0) by (nonlinear_arith)
            requires
                len == width * n,
                n == 0,
        ;
        assert(all.flatten() =~= Seq::<T>::empty());
        assert(data =~= Seq::<T>::empty());
    } else {
        assert(len >= width) by (nonlinear_arith)
            requires
                len == width * n,
                n >= 1,
                width > 0,
        ;
        let front = data.take(len - width);
        let last = data.subrange(len - width, len);
        assert((len - width) / width == n - 1 && (len - width) % width == 0) by (nonlinear_arith)
            requires
                width > 0,
                len == width * n,
        ;
        lemma_runs_cover(front, width);
        let before = runs(front, width, width);
        assert(all =~= before.push(last)) by {
            assert(all.len() == n);
            assert(before.len() == n - 1);
            assert forall|i: int| 0 <= i < n implies all[i] == before.push(last)[i] by {
                assert(width * i + width <= width * n) by (nonlinear_arith)
                    requires
                        0 <= i < n,
                        width > 0,
                ;
                if i < n - 1 {
                    assert(width * i + width <= width * n - width) by (nonlinear_arith)
                        requires
                            0 <= i < n - 1,
                            width > 0,
                    ;
                    assert(front.subrange(width * i, width * i + width) =~= data.subrange(
                        width * i,
                        width * i + width,
                    ));
                } else {
                    assert(width * i == len - width) by (nonlinear_arith)
                        requires
                            i == n - 1,
                            len == width * n,
                    ;
                }
            }
        }
        before.lemma_flatten_push(last);
        assert(front + last =~= data);
    }
}

/// Vertex decoding fails with a count mismatch exactly when the number of
/// whole positions that the payload decodes to differs from the declared
/// element count; where it succeeds, the positions are as many as declared and
/// hold all the numbers decoded, in order, and nothing else.
pub proof fn lemma_vertex_count(block: DataBlock, data: Seq<Single>)
    requires
        block.data is Some,
        reading::<Single>(block.data->0.text@, "float"@) == Ok::<_, Failure>(data),
    ensures
        vertex_stream(block) is Err && vertex_stream(block)->Err_0.0 == ErrorKind::CountMismatch
            <==> data.len() / 3 != block.element_count,
        vertex_stream(block) is Ok ==> vertex_stream(block)->Ok_0.len() == block.element_count
            && vertex_stream(block)->Ok_0.flatten() == data,
{
    if vertex_stream(block) is Ok {
        lemma_runs_cover(data, 3);
    }
}

/// Texture-coordinate decoding fails with a count mismatch exactly when the
/// number of whole coordinates that the payload decodes to differs from the
/// declared element count; where it succeeds, the coordinates are as many as
/// declared and their runs take up all the numbers decoded.
pub proof fn lemma_uv_count(block: DataBlock, data: Seq<Single>)
    requires
        block.data is Some,
        reading::<Single>(block.data->0.text@, "half"@) == Ok::<_, Failure>(data),
    ensures
        uv_stream(block) is Err && uv_stream(block)->Err_0.0 == ErrorKind::CountMismatch
            <==> data.len() / (uv_width(block) as nat) != block.element_count,
        uv_stream(block) is Ok ==> uv_stream(block)->Ok_0.len() == block.element_count
            && data.len() == uv_width(block) * block.element_count,
{
    let w = uv_width(block);
    let len = data.len() as int;
    if uv_stream(block) is Ok {
        assert(len == w * (len / w)) by (nonlinear_arith)
            requires
                w > 0,
                len % w == 0,
        ;
    }
}

/// Once a stream has failed, the streams behind it change nothing.
proof fn lemma_gathered_failure(blocks: Seq<DataBlock>, streams: Seq<RenderStream>, i: int)
    requires
        0 <= i <= streams.len(),
        gathered(blocks, streams.take(i)) is Err,
    ensures
        gathered(blocks, streams) == gathered(blocks, streams.take(i)),
    decreases streams.len() - i,
{
    if i == streams.len() {
        assert(streams.take(i) =~= streams);
    } else {
        assert(streams.take(i + 1).drop_last() =~= streams.take(i));
        lemma_gathered_failure(blocks, streams, i + 1);
    }
}

/// The rows of two lists, one behind the other.
proof fn lemma_rows_add<T, const N: usize>(a: Seq<[T; N]>, b: Seq<[T; N]>)
    ensures
        rows(a + b) == rows(a) + rows(b),
{
    assert(rows(a + b) =~= rows(a) + rows(b));
}

/// The position of the first block that a reference names.
fn find(blocks: &[DataBlock], reference: &Vec<char>) -> (r: Option<usize>)
    ensures
        match find_block(blocks@, strip_marker(reference@)) {
            Some(b) => r is Some && r->0 < blocks@.len() && blocks@[r->0 as int] == b,
            None => r is None,
        },
{
    let from: usize = if reference.len() > 0 && reference[0] == '#' {
        1
    } else {
        0
    };
    let ghost id = strip_marker(reference@);
    assert(reference@.skip(0) =~= reference@);
    let mut i: usize = 0;
    assert(blocks@.skip(0) =~= blocks@);
    while i < blocks.len()
        invariant
            i <= blocks.len(),
            from <= reference.len(),
            id == reference@.skip(from as int),
            id == strip_marker(reference@),
            find_block(blocks@, id) == find_block(blocks@.skip(i as int), id),
        decreases blocks.len() - i,
    {
        let ghost rest = blocks@.skip(i as int);
        assert(rest[0] == blocks@[i as int]);
        assert(rest.drop_first() =~= blocks@.skip(i + 1));
        let name = chars_of(blocks[i].id.as_str());
        if same_from(reference, from, &name) {
            return Some(i);
        }
        i += 1;
    }
    assert(blocks@.skip(i as int).len() == 0);
    None
}

impl Object {
    /// Decodes the vertex positions of a block.
    ///
    /// Fails as missing data without a payload, and as the codec does on the
    /// payload. Where the payload decodes, it fails as a count mismatch exactly
    /// when the number of whole positions differs from the declared element
    /// count, and else as incomplete when numbers are left over: nothing is cut
    /// off or filled in.
    pub fn decode_vertices(block: &DataBlock) -> (r: Result<Vec<[Single; 3]>, ParseError>)
        ensures
            gives(r, vertex_stream(*block)),
    {
        let text = match &block.data {
            Some(d) => d.text.as_str(),
            None => {
                return Err(
                    ParseError::of_kind(ErrorKind::MissingData, "Missing vertex block data"),
                );
            },
        };
        let data: Vec<Single> = match read::<Single>(text, "float") {
            Ok(d) => d,
            Err(e) => {
                return Err(e);
            },
        };
        if data.len() / 3 != block.element_count {
            return Err(
                ParseError::of_kind(
                    ErrorKind::CountMismatch,
                    "Vertex count does not match element count",
                ),
            );
        }
        if data.len() % 3 != 0 {
            return Err(
                ParseError::of_kind(ErrorKind::Incomplete, "Vertex data ends inside an element"),
            );
        }
        Ok(group::<Single, 3>(&data, 3))
    }

    /// Decodes the texture coordinates of a block.
    ///
    /// Fails as missing data without a payload, and as the codec does on the
    /// payload. Where the payload decodes, it fails as a count mismatch exactly
    /// when the number of whole coordinates differs from the declared element
    /// count, and else as incomplete when numbers are left over.
    pub fn decode_uvs(block: &DataBlock) -> (r: Result<Vec<[Single; 2]>, ParseError>)
        ensures
            gives(r, uv_stream(*block)),
    {
        let text = match &block.data {
            Some(d) => d.text.as_str(),
            None => {
                return Err(ParseError::of_kind(ErrorKind::MissingData, "Missing uv block data"));
            },
        };
        let data: Vec<Single> = match read::<Single>(text, "half") {
            Ok(d) => d,
            Err(e) => {
                return Err(e);
            },
        };
        let width: usize = if same_text(block.stream.data_type.as_str(), "half2") {
            2
        } else {
            4
        };
        if data.len() / width != block.element_count {
            return Err(uv_mismatch_error(data.len() / width, block.element_count));
        }
        if data.len() % width != 0 {
            return Err(
                ParseError::of_kind(ErrorKind::Incomplete, "UV data ends inside an element"),
            );
        }
        Ok(group::<Single, 2>(&data, width))
    }

    /// Decodes the faces of an index source, with what is advised of it.
    ///
    /// Fails as missing data without a payload, and as the codec does on the
    /// payload; the number of indices never makes it fail.
    pub fn decode_faces(source: &RenderIndexSource) -> (r: Result<
        (Vec<[u32; 3]>, Advisories),
        ParseError,
    >)
        ensures
            match index_stream(*source) {
                Ok(indices) => r is Ok && rows(r->Ok_0.0@) == runs(indices, 3, 3) && r->Ok_0.1
                    == advisories_of(*source, indices.len()),
                Err(f) => r is Err && r->Err_0@ == f,
            },
    {
        let text = match &source.index_data {
            Some(d) => d.text.as_str(),
            None => {
                return Err(
                    ParseError::of_kind(ErrorKind::MissingData, "Missing faces block data"),
                );
            },
        };
        let data: Vec<u32> = match read::<u32>(text, source.data_type.as_str()) {
            Ok(d) => d,
            Err(e) => {
                return Err(e);
            },
        };
        let faces = group_faces(&data);
        let t = DataType::from_tag(source.data_type.as_str());
        let advisories = Advisories {
            unexpected_index_type: t != DataType::UChar && t != DataType::UShort,
            not_multiple_of_three: source.count % 3 != 0 || data.len() % 3 != 0,
            face_count_mismatch: source.count / 3 != data.len() / 3,
        };
        Ok((faces, advisories))
    }

    /// Assembles the mesh of one render data source from the data blocks it
    /// refers to.
    ///
    /// The render streams are taken in order. Each reference is stripped of its
    /// leading `#` and names the first block with that identifier: a block of
    /// vertex positions or of texture coordinates is decoded and its elements
    /// are added; any other block, and a reference that names none, is passed
    /// over. Then the faces are decoded. The first failure on the way is the
    /// failure of the whole: no object comes of a source with a failing stream.
    pub fn new(blocks: &[DataBlock], source: RenderDataSource) -> (r: Result<Object, ParseError>)
        ensures
            match assembled(blocks@, source) {
                Ok(mesh) => r is Ok && r->Ok_0@ == mesh,
                Err(f) => r is Err && r->Err_0@ == f,
            },
    {
        match Self::decode(blocks, source) {
            Ok((vertices, uvs, faces, advisories)) => Ok(
                Object { vertices, uvs, faces, advisories },
            ),
            Err(e) => Err(e),
        }
    }

    /// Decodes the streams and the faces of one render data source.
    fn decode(blocks: &[DataBlock], source: RenderDataSource) -> (r: Result<
        (Vec<[Single; 3]>, Vec<[Single; 2]>, Vec<[u32; 3]>, Advisories),
        ParseError,
    >)
        ensures
            match assembled(blocks@, source) {
                Ok(mesh) => {
                    &&& r is Ok
                    &&& rows(r->Ok_0.0@) == mesh.vertices
                    &&& rows(r->Ok_0.1@) == mesh.uvs
                    &&& rows(r->Ok_0.2@) == mesh.faces
                    &&& r->Ok_0.3 == mesh.advisories
                },
                Err(f) => r is Err && r->Err_0@ == f,
            },
    {
        let mut vertices: Vec<[Single; 3]> = Vec::new();
        let mut uvs: Vec<[Single; 2]> = Vec::new();
        let ghost streams = source.streams@;
        let mut i: usize = 0;
        assert(rows(vertices@) =~= Seq::empty());
        assert(rows(uvs@) =~= Seq::empty());
        while i < source.streams.len()
            invariant
                i <= source.streams.len(),
                streams == source.streams@,
                gathered(blocks@, streams.take(i as int)) == Ok::<_, Failure>(
                    (rows(vertices@), rows(uvs@)),
                ),
            decreases source.streams.len() - i,
        {
            proof {
                assert(streams.take(i + 1).drop_last() =~= streams.take(i as int));
                assert(streams.take(i + 1).last() == streams[i as int]);
            }
            let reference = chars_of(source.streams[i].data_block.as_str());
            match find(blocks, &reference) {
                Some(k) => {
                    let block = &blocks[k];
                    match RenderType::from_tag(block.stream.render_type.as_str()) {
                        RenderType::Position => {
                            match Self::decode_vertices(block) {
                                Ok(mut v) => {
                                    proof {
                                        lemma_rows_add(vertices@, v@);
                                    }
                                    vertices.append(&mut v);
                                },
                                Err(e) => {
                                    proof {
                                        lemma_gathered_failure(blocks@, streams, i + 1);
                                    }
                                    return Err(e);
                                },
                            }
                        },
                        RenderType::TextureCoordinate => {
                            match Self::decode_uvs(block) {
                                Ok(mut u) => {
                                    proof {
                                        lemma_rows_add(uvs@, u@);
                                    }
                                    uvs.append(&mut u);
                                },
                                Err(e) => {
                                    proof {
                                        lemma_gathered_failure(blocks@, streams, i + 1);
                                    }
                                    return Err(e);
                                },
                            }
                        },
                        RenderType::Other => {},
                    }
                },
                None => {},
            }
            i += 1;
        }
        assert(streams.take(i as int) =~= streams);
        let (faces, advisories) = match Self::decode_faces(&source.index_source) {
            Ok(f) => f,
            Err(e) => {
                return Err(e);
            },
        };
        Ok((vertices, uvs, faces, advisories))
    }
}

} // verus!
