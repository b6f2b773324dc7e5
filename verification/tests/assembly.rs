use journey_model_parser::entity::Entity;
use journey_model_parser::error::ErrorKind;
use journey_model_parser::object::{group_faces, Advisories, Object, RenderType};
use journey_model_parser::single::Single;
use journey_model_parser::structure::{
    parse_xml_file, DataBlock, DataBlockData, DataBlockStream, IndexSourceData, Library,
    PssgDatabase, PssgFile, RenderDataSource, RenderIndexSource, RenderNode, RenderStream,
    RootNode, SegmentSet, Transform, TypeInfo,
};
use journey_model_parser::{convert_file, parse};

fn block(id: &str, render_type: &str, data_type: &str, count: usize, text: Option<&str>) -> DataBlock {
    DataBlock {
        element_count: count,
        stream: DataBlockStream {
            render_type: render_type.to_string(),
            data_type: data_type.to_string(),
        },
        data: text.map(|t| DataBlockData { text: t.to_string() }),
        id: id.to_string(),
    }
}

fn source(primitive: &str, count: usize, format: &str, text: Option<&str>, refs: &[&str]) -> RenderDataSource {
    RenderDataSource {
        index_source: RenderIndexSource {
            primitive: primitive.to_string(),
            count,
            index_data: text.map(|t| IndexSourceData { text: t.to_string() }),
            data_type: format.to_string(),
        },
        streams: refs.iter().map(|r| RenderStream { data_block: r.to_string() }).collect(),
    }
}

fn library(kind: &str) -> Library {
    Library {
        library_type: kind.to_string(),
        data_blocks: Vec::new(),
        segment_sets: Vec::new(),
        root_node: None,
    }
}

fn document(type_info: Vec<TypeInfo>, libraries: Vec<Library>) -> PssgFile {
    PssgFile { database: PssgDatabase { type_info, libraries } }
}

fn floats3(v: &[[Single; 3]]) -> Vec<[f32; 3]> {
    v.iter().map(|r| [f32::from_bits(r[0].bits), f32::from_bits(r[1].bits), f32::from_bits(r[2].bits)]).collect()
}

fn floats2(v: &[[Single; 2]]) -> Vec<[f32; 2]> {
    v.iter().map(|r| [f32::from_bits(r[0].bits), f32::from_bits(r[1].bits)]).collect()
}

const ONE_VERTEX: &str = "3f 80 00 00 40 00 00 00 40 40 00 00";
// the coordinate (0.5, 0.5) and a trailing pair, which also marks the blob as hexadecimal
const HALF_HALF: &str = "38 00 38 00 3c 00 3c 00";
const NO_ADVICE: Advisories = Advisories {
    unexpected_index_type: false,
    not_multiple_of_three: false,
    face_count_mismatch: false,
};

#[test]
fn render_type_tags() {
    assert_eq!(RenderType::from_tag("Vertex"), RenderType::Position);
    assert_eq!(RenderType::from_tag("SkinnableVertex"), RenderType::Position);
    assert_eq!(RenderType::from_tag("ST"), RenderType::TextureCoordinate);
    assert_eq!(RenderType::from_tag("Normal"), RenderType::Other);
    assert_eq!(RenderType::from_tag("vertex"), RenderType::Other);
}

#[test]
fn vertices_decode_in_triples() {
    let b = block("a", "Vertex", "float3", 2, Some("3f 80 00 00 40 00 00 00 40 40 00 00 c0 80 00 00 00 00 00 00 3f 00 00 00"));
    let v = Object::decode_vertices(&b).unwrap();
    assert_eq!(floats3(&v), vec![[1.0, 2.0, 3.0], [-4.0, 0.0, 0.5]]);
}

#[test]
fn vertices_count_mismatch_if_and_only_if_counts_differ() {
    for declared in 0..4 {
        let b = block("a", "Vertex", "float3", declared, Some(ONE_VERTEX));
        let r = Object::decode_vertices(&b);
        if declared == 1 {
            assert_eq!(r.unwrap().len(), 1);
        } else {
            assert_eq!(r.unwrap_err().kind, ErrorKind::CountMismatch);
        }
    }
}

#[test]
fn vertices_never_cut_off() {
    // four numbers: one whole position and one number over
    let b = block("a", "Vertex", "float3", 1, Some("3f 80 00 00 40 00 00 00 40 40 00 00 40 40 00 00"));
    assert_eq!(Object::decode_vertices(&b).unwrap_err().kind, ErrorKind::Incomplete);
    let b = block("a", "Vertex", "float3", 2, Some("3f 80 00 00 40 00 00 00 40 40 00 00 40 40 00 00"));
    assert_eq!(Object::decode_vertices(&b).unwrap_err().kind, ErrorKind::CountMismatch);
}

#[test]
fn vertices_missing_payload_and_bad_payload() {
    let b = block("a", "Vertex", "float3", 1, None);
    let e = Object::decode_vertices(&b).unwrap_err();
    assert_eq!(e.kind, ErrorKind::MissingData);
    assert_eq!(e.message(), "Missing vertex block data");
    let b = block("a", "Vertex", "float3", 1, Some("3f 80 00 zz"));
    assert_eq!(Object::decode_vertices(&b).unwrap_err().kind, ErrorKind::Decode);
    let b = block("a", "Vertex", "float3", 1, Some("3f 80 00"));
    assert_eq!(Object::decode_vertices(&b).unwrap_err().kind, ErrorKind::Incomplete);
}

#[test]
fn payload_of_digits_alone_is_decimal() {
    // every token looks like a hexadecimal byte, and none holds a letter
    let b = block("u", "ST", "half2", 2, Some("38 00 38 00"));
    assert_eq!(floats2(&Object::decode_uvs(&b).unwrap()), vec![[38.0, 0.0], [38.0, 0.0]]);
    let b = block("u", "ST", "half2", 1, Some("38 00 38 00"));
    assert_eq!(Object::decode_uvs(&b).unwrap_err().kind, ErrorKind::CountMismatch);
}

#[test]
fn failures_say_what_went_wrong() {
    let b = block("a", "Vertex", "float3", 2, Some(ONE_VERTEX));
    assert_eq!(Object::decode_vertices(&b).unwrap_err().message(), "Vertex count does not match element count");
    let b = block("a", "Vertex", "float3", 1, Some("3f 80 00 00 40 00 00 00 40 40 00 00 40 40 00 00"));
    assert_eq!(Object::decode_vertices(&b).unwrap_err().message(), "Vertex data ends inside an element");
    let b = block("u", "ST", "half2", 12, Some("38 00 3c 00 00 00 c0 00"));
    assert_eq!(Object::decode_uvs(&b).unwrap_err().message(), "UV count 2 does not match element count 12");
    let b = block("u", "ST", "half4", 0, Some("38 00 3c 00 00 00 c0 00"));
    assert_eq!(Object::decode_uvs(&b).unwrap_err().message(), "UV count 1 does not match element count 0");
    let b = block("u", "ST", "half4", 1, Some("38 00 3c 00 00 00 c0 00 3c 00"));
    assert_eq!(Object::decode_uvs(&b).unwrap_err().message(), "UV data ends inside an element");
    let b = block("u", "ST", "half2", 1, None);
    assert_eq!(Object::decode_uvs(&b).unwrap_err().message(), "Missing uv block data");
    let s = source("triangles", 3, "ushort", None, &[]);
    assert_eq!(Object::decode_faces(&s.index_source).unwrap_err().message(), "Missing faces block data");
    let s = source("triangles", 3, "uint", Some("0a 0b 0c"), &[]);
    assert_eq!(Object::decode_faces(&s.index_source).unwrap_err().message(), "Unknown data type uint");
    assert_eq!(
        Transform::from_text("1 0 0 0 0 1 0 0 0 0 1 0 5 6 7").unwrap_err().message(),
        "Matrix does not hold 16 entries"
    );
}

#[test]
fn vertices_from_decimal_payload() {
    let b = block("a", "Vertex", "float3", 1, Some("1 2 3"));
    assert_eq!(floats3(&Object::decode_vertices(&b).unwrap()), vec![[1.0, 2.0, 3.0]]);
}

#[test]
fn uvs_half_pairs() {
    let b = block("u", "ST", "half2", 2, Some("38 00 3c 00 00 00 c0 00"));
    assert_eq!(floats2(&Object::decode_uvs(&b).unwrap()), vec![[0.5, 1.0], [0.0, -2.0]]);
}

#[test]
fn uvs_half_quads_drop_trailing_pair() {
    let b = block("u", "ST", "half4", 2, Some("38 00 3c 00 40 00 40 00 00 00 c0 00 3c 00 3c 00"));
    assert_eq!(floats2(&Object::decode_uvs(&b).unwrap()), vec![[0.5, 1.0], [0.0, -2.0]]);
    // any sub-type but half2 takes four numbers to a coordinate
    let b = block("u", "ST", "other", 1, Some("38 00 3c 00 40 00 40 00"));
    assert_eq!(floats2(&Object::decode_uvs(&b).unwrap()), vec![[0.5, 1.0]]);
}

#[test]
fn uvs_count_mismatch_if_and_only_if_counts_differ() {
    for declared in 0..5 {
        let b = block("u", "ST", "half2", declared, Some("38 00 3c 00 00 00 c0 00"));
        let r = Object::decode_uvs(&b);
        if declared == 2 {
            assert_eq!(r.unwrap().len(), 2);
        } else {
            assert_eq!(r.unwrap_err().kind, ErrorKind::CountMismatch);
        }
    }
    let b = block("u", "ST", "half4", 1, Some("38 00 3c 00 00 00 c0 00 3c 00"));
    assert_eq!(Object::decode_uvs(&b).unwrap_err().kind, ErrorKind::Incomplete);
    let b = block("u", "ST", "half2", 1, None);
    assert_eq!(Object::decode_uvs(&b).unwrap_err().kind, ErrorKind::MissingData);
}

#[test]
fn faces_grouped_in_input_order() {
    assert_eq!(group_faces(&vec![0, 1, 2, 2, 1, 3]), vec![[0, 1, 2], [2, 1, 3]]);
    assert_eq!(group_faces(&vec![]), Vec::<[u32; 3]>::new());
    assert_eq!(group_faces(&vec![5, 6]), Vec::<[u32; 3]>::new());
    assert_eq!(group_faces(&vec![9, 8, 7, 6]), vec![[9, 8, 7]]);
    assert_eq!(group_faces(&vec![9, 8, 7, 6, 5]), vec![[9, 8, 7]]);
}

#[test]
fn faces_with_leftover_indices_are_advised_not_failed() {
    for n in 0..10usize {
        let text: Vec<String> = (0..n).map(|i| i.to_string()).collect();
        let s = source("triangles", n, "ushort", Some(&text.join(" ")), &[]);
        let (faces, advisories) = Object::decode_faces(&s.index_source).unwrap();
        assert_eq!(faces.len(), n / 3);
        for (i, f) in faces.iter().enumerate() {
            assert_eq!(*f, [3 * i as u32, 3 * i as u32 + 1, 3 * i as u32 + 2]);
        }
        assert_eq!(advisories.not_multiple_of_three, n % 3 != 0);
        assert!(!advisories.face_count_mismatch);
        assert!(!advisories.unexpected_index_type);
    }
}

#[test]
fn faces_advisories() {
    let s = source("triangles", 6, "uchar", Some("00 01 02"), &[]);
    let (faces, a) = Object::decode_faces(&s.index_source).unwrap();
    assert_eq!(faces, vec![[0, 1, 2]]);
    assert_eq!(a, Advisories { unexpected_index_type: false, not_multiple_of_three: false, face_count_mismatch: true });
    let s = source("triangles", 4, "uchar", Some("00 01 02"), &[]);
    let (_, a) = Object::decode_faces(&s.index_source).unwrap();
    assert_eq!(a, Advisories { unexpected_index_type: false, not_multiple_of_three: true, face_count_mismatch: false });
    let s = source("triangles", 3, "half", Some("3c 00 40 00 00 00"), &[]);
    let (faces, a) = Object::decode_faces(&s.index_source).unwrap();
    assert_eq!(faces, vec![[1, 2, 0]]);
    assert_eq!(a, Advisories { unexpected_index_type: true, not_multiple_of_three: false, face_count_mismatch: false });
    // decimal payload under an unknown tag: decoded, and advised of
    let s = source("triangles", 3, "uint", Some("7 8 9"), &[]);
    let (faces, a) = Object::decode_faces(&s.index_source).unwrap();
    assert_eq!(faces, vec![[7, 8, 9]]);
    assert!(a.unexpected_index_type);
}

#[test]
fn faces_failures() {
    let s = source("triangles", 3, "ushort", None, &[]);
    assert_eq!(Object::decode_faces(&s.index_source).unwrap_err().kind, ErrorKind::MissingData);
    let s = source("triangles", 3, "uint", Some("0a 0b 0c"), &[]);
    assert_eq!(Object::decode_faces(&s.index_source).unwrap_err().kind, ErrorKind::UnsupportedType);
    let s = source("triangles", 3, "ushort", Some("0a 0b 0c"), &[]);
    assert_eq!(Object::decode_faces(&s.index_source).unwrap_err().kind, ErrorKind::Incomplete);
    let s = source("triangles", 3, "ushort", Some("0a 0b 0c xy"), &[]);
    assert_eq!(Object::decode_faces(&s.index_source).unwrap_err().kind, ErrorKind::Decode);
}

#[test]
fn object_from_streams() {
    let blocks = vec![
        block("n", "Normal", "float3", 1, Some("zz")),
        block("p", "Vertex", "float3", 1, Some(ONE_VERTEX)),
        block("q", "SkinnableVertex", "float3", 1, Some("00 00 00 00 00 00 00 00 3f 80 00 00")),
        block("t", "ST", "half4", 1, Some(HALF_HALF)),
        block("p", "Vertex", "float3", 7, Some("never read")),
    ];
    let s = source("triangles", 3, "ushort", Some("0 1 0"), &["#q", "#n", "#missing", "#p", "#t", "p"]);
    let o = Object::new(&blocks, s).unwrap();
    assert_eq!(floats3(&o.vertices), vec![[0.0, 0.0, 1.0], [1.0, 2.0, 3.0], [1.0, 2.0, 3.0]]);
    assert_eq!(floats2(&o.uvs), vec![[0.5, 0.5]]);
    assert_eq!(o.faces, vec![[0, 1, 0]]);
    assert_eq!(o.advisories, NO_ADVICE);
}

#[test]
fn object_reference_marker_is_stripped_once() {
    let blocks = vec![
        block("#p", "Vertex", "float3", 1, Some(ONE_VERTEX)),
        block("p", "Vertex", "float3", 1, Some("0 0 0")),
    ];
    let o = Object::new(&blocks, source("triangles", 0, "ushort", Some(""), &["##p"])).unwrap();
    assert_eq!(floats3(&o.vertices), vec![[1.0, 2.0, 3.0]]);
    let o = Object::new(&blocks, source("triangles", 0, "ushort", Some(""), &["#p"])).unwrap();
    assert_eq!(floats3(&o.vertices), vec![[0.0, 0.0, 0.0]]);
    let o = Object::new(&blocks, source("triangles", 0, "ushort", Some(""), &["p#"])).unwrap();
    assert_eq!(o.vertices.len(), 0);
    let o = Object::new(&blocks, source("triangles", 0, "ushort", Some(""), &[""])).unwrap();
    assert_eq!(o.vertices.len(), 0);
}

#[test]
fn object_fails_with_first_failing_stream() {
    let blocks = vec![
        block("p", "Vertex", "float3", 2, Some(ONE_VERTEX)),
        block("t", "ST", "half2", 1, None),
    ];
    let e = Object::new(&blocks, source("triangles", 3, "ushort", Some("0 0 0"), &["#t", "#p"])).unwrap_err();
    assert_eq!(e.kind, ErrorKind::MissingData);
    let e = Object::new(&blocks, source("triangles", 3, "ushort", Some("0 0 0"), &["#p", "#t"])).unwrap_err();
    assert_eq!(e.kind, ErrorKind::CountMismatch);
    // streams are decoded before the faces
    let e = Object::new(&blocks, source("triangles", 3, "ushort", None, &["#p"])).unwrap_err();
    assert_eq!(e.kind, ErrorKind::CountMismatch);
    let e = Object::new(&blocks, source("triangles", 3, "ushort", None, &[])).unwrap_err();
    assert_eq!(e.kind, ErrorKind::MissingData);
}

#[test]
fn transform_from_text_and_translation() {
    let t = Transform::from_text("1 0 0 0 0 1 0 0 0 0 1 0 5 6 7 1").unwrap();
    let tr = t.translation();
    assert_eq!([f32::from_bits(tr[0].bits), f32::from_bits(tr[1].bits), f32::from_bits(tr[2].bits)], [5.0, 6.0, 7.0]);
    for (i, row) in t.matrix.iter().enumerate() {
        for (j, x) in row.iter().enumerate() {
            let want = if i == 3 && j < 3 { 5.0 + j as f32 } else if i == j { 1.0 } else { 0.0 };
            assert_eq!(f32::from_bits(x.bits), want);
        }
    }
    let hex: Vec<String> = [1.0f32, 0.0, 0.0, 0.0, 0.0, 1.0, 0.0, 0.0, 0.0, 0.0, 1.0, 0.0, -1.5, 2.25, 1e3, 1.0]
        .iter()
        .flat_map(|f| f.to_be_bytes())
        .map(|b| format!("{:02X}", b))
        .collect();
    let t = Transform::from_text(&hex.join(" ")).unwrap();
    let tr = t.translation();
    assert_eq!([f32::from_bits(tr[0].bits), f32::from_bits(tr[1].bits), f32::from_bits(tr[2].bits)], [-1.5, 2.25, 1e3]);
}

#[test]
fn transform_failures() {
    assert_eq!(Transform::from_text("1 0 0 0 0 1 0 0 0 0 1 0 5 6 7").unwrap_err().kind, ErrorKind::CountMismatch);
    assert_eq!(Transform::from_text("").unwrap_err().kind, ErrorKind::CountMismatch);
    assert_eq!(Transform::from_text("1 0 0 0 0 1 0 0 0 0 1 0 5 6 7 1 1").unwrap_err().kind, ErrorKind::CountMismatch);
    assert_eq!(Transform::from_text("1.0 0 0 0 0 1 0 0 0 0 1 0 5 6 7 1").unwrap_err().kind, ErrorKind::Decode);
    assert_eq!(Transform::from_text("3f 80 00").unwrap_err().kind, ErrorKind::Incomplete);
}

#[test]
fn identity_transform() {
    let t = Transform::identity();
    for i in 0..4 {
        for j in 0..4 {
            assert_eq!(f32::from_bits(t.matrix[i][j].bits), if i == j { 1.0 } else { 0.0 });
        }
    }
    assert_eq!(t.translation(), [Single { bits: 0 }; 3]);
}

fn node(text: &str) -> RenderNode {
    RenderNode { transform: Transform::from_text(text).unwrap() }
}

#[test]
fn translation_defaults_to_zero() {
    let zero = [Single { bits: 0 }; 3];
    assert_eq!(Entity::get_translation(&None), zero);
    assert_eq!(Entity::get_translation(&Some(RootNode { render_nodes: vec![] })), zero);
    let two = RootNode {
        render_nodes: vec![node("1 0 0 0 0 1 0 0 0 0 1 0 5 6 7 1"), node("1 0 0 0 0 1 0 0 0 0 1 0 1 2 3 1")],
    };
    assert_eq!(Entity::get_translation(&Some(two)), zero);
    let one = RootNode { render_nodes: vec![node("1 0 0 0 0 1 0 0 0 0 1 0 5 6 7 1")] };
    let t = Entity::get_translation(&Some(one));
    assert_eq!([f32::from_bits(t[0].bits), f32::from_bits(t[1].bits), f32::from_bits(t[2].bits)], [5.0, 6.0, 7.0]);
}

#[test]
fn entity_assembles_every_source() {
    let blocks = vec![
        block("p", "Vertex", "float3", 1, Some(ONE_VERTEX)),
        block("t", "ST", "half4", 1, Some(HALF_HALF)),
    ];
    let sources = vec![
        source("triangles", 3, "ushort", Some("0 0 0"), &["#p", "#t"]),
        source("triangles", 3, "ushort", Some("0 0 0 0"), &["#p"]),
    ];
    let e = Entity::new(blocks, sources, None).unwrap();
    assert_eq!(e.objects.len(), 2);
    assert_eq!(e.objects[0].uvs.len(), 1);
    assert_eq!(e.objects[1].uvs.len(), 0);
    assert_eq!(e.objects[0].advisories, NO_ADVICE);
    assert!(e.objects[1].advisories.not_multiple_of_three);
    assert_eq!(e.translation, [Single { bits: 0 }; 3]);
}

#[test]
fn entity_fails_with_first_failing_source() {
    let blocks = vec![block("p", "Vertex", "float3", 2, Some(ONE_VERTEX))];
    let sources = vec![
        source("triangles", 3, "ushort", Some("0 0 0"), &[]),
        source("triangles", 3, "ushort", Some("0 0 x"), &[]),
        source("triangles", 3, "ushort", Some("0 0 0"), &["#p"]),
    ];
    assert_eq!(Entity::new(blocks, sources, None).unwrap_err().kind, ErrorKind::Decode);
}

fn sample_document() -> PssgFile {
    let mut blocks = library("RENDERINTERFACEBOUND");
    blocks.data_blocks = vec![
        block("p", "Vertex", "float3", 1, Some(ONE_VERTEX)),
        block("empty", "Vertex", "float3", 1, None),
        block("t", "ST", "half4", 1, Some(HALF_HALF)),
    ];
    // data blocks of a library of another type are not read
    let mut other = library("renderinterfacebound");
    other.data_blocks = vec![block("x", "Vertex", "float3", 1, Some(ONE_VERTEX))];
    other.segment_sets = vec![SegmentSet { render_data_sources: vec![source("triangles", 3, "ushort", Some("0 0 0"), &[])] }];
    other.root_node = Some(RootNode { render_nodes: vec![node("1 0 0 0 0 1 0 0 0 0 1 0 9 9 9 1")] });
    let mut sets = library("SEGMENTSET");
    sets.segment_sets = vec![
        SegmentSet {
            render_data_sources: vec![
                source("lines", 2, "ushort", Some("0 0"), &["#p"]),
                source("triangles", 3, "ushort", None, &["#p"]),
            ],
        },
        SegmentSet { render_data_sources: vec![source("triangles", 3, "ushort", Some("0 0 0"), &["#p", "#t"])] },
    ];
    document(
        vec![
            TypeInfo { name: "DATABLOCK".to_string(), type_count: 3 },
            TypeInfo { name: "RENDERDATASOURCE".to_string(), type_count: 3 },
            TypeInfo { name: "RENDERDATASOURCE".to_string(), type_count: 1 },
        ],
        vec![other, blocks, sets],
    )
}

#[test]
fn document_selection() {
    let (blocks, sources, root, declared) = parse_xml_file(sample_document());
    assert_eq!(blocks.iter().map(|b| b.id.as_str()).collect::<Vec<_>>(), vec!["p", "t"]);
    assert_eq!(sources.len(), 1);
    assert_eq!(sources[0].streams.len(), 2);
    assert!(root.is_none());
    assert_eq!(declared, 3);
}

#[test]
fn document_without_libraries() {
    let (blocks, sources, root, declared) = parse_xml_file(document(vec![], vec![]));
    assert!(blocks.is_empty());
    assert!(sources.is_empty());
    assert!(root.is_none());
    assert_eq!(declared, 0);
}

#[test]
fn document_root_node_is_the_first_of_a_node_library() {
    let mut a = library("NODE");
    let mut b = library("NODE");
    b.root_node = Some(RootNode { render_nodes: vec![node("1 0 0 0 0 1 0 0 0 0 1 0 5 6 7 1")] });
    let mut c = library("NODE");
    c.root_node = Some(RootNode { render_nodes: vec![] });
    a.data_blocks = vec![block("p", "Vertex", "float3", 1, Some(ONE_VERTEX))];
    let (blocks, _, root, _) = parse_xml_file(document(vec![], vec![a, b, c]));
    assert!(blocks.is_empty());
    assert_eq!(root.unwrap().render_nodes.len(), 1);
}

#[test]
fn end_to_end_single_object() {
    let (entity, count) = parse(sample_document()).unwrap();
    assert_eq!(entity.objects.len(), 1);
    let o = &entity.objects[0];
    assert_eq!(floats3(&o.vertices), vec![[1.0, 2.0, 3.0]]);
    assert_eq!(floats2(&o.uvs), vec![[0.5, 0.5]]);
    assert_eq!(o.faces, vec![[0, 0, 0]]);
    assert_eq!(entity.translation, [Single { bits: 0 }; 3]);
    assert_eq!(count.declared, 3);
    assert_eq!(count.retained, 1);
    assert!(!count.is_consistent());
}

#[test]
fn end_to_end_in_any_order_of_libraries() {
    let p = block("p", "Vertex", "float3", 1, Some(ONE_VERTEX));
    // the sign makes the payload hexadecimal: without it, digits alone would be decimal
    let t = block("t", "ST", "half2", 1, Some("38 00 +38 00"));
    let make = |blocks_first: bool, position_first: bool, refs: [&str; 2]| {
        let mut blocks = library("RENDERINTERFACEBOUND");
        blocks.data_blocks = if position_first { vec![p.clone(), t.clone()] } else { vec![t.clone(), p.clone()] };
        let mut sets = library("SEGMENTSET");
        sets.segment_sets = vec![SegmentSet { render_data_sources: vec![source("triangles", 3, "ushort", Some("0 0 0"), &refs)] }];
        let other = library("SHADER");
        let libraries = if blocks_first { vec![blocks, other, sets] } else { vec![sets, other, blocks] };
        document(vec![TypeInfo { name: "RENDERDATASOURCE".to_string(), type_count: 1 }], libraries)
    };
    for blocks_first in [true, false] {
        for position_first in [true, false] {
            for refs in [["#p", "#t"], ["#t", "#p"]] {
                let (entity, count) = parse(make(blocks_first, position_first, refs)).unwrap();
                assert_eq!(entity.objects.len(), 1);
                assert_eq!(floats3(&entity.objects[0].vertices), vec![[1.0, 2.0, 3.0]]);
                assert_eq!(floats2(&entity.objects[0].uvs), vec![[0.5, 0.5]]);
                assert_eq!(entity.objects[0].faces, vec![[0, 0, 0]]);
                assert_eq!(entity.translation, [Single { bits: 0 }; 3]);
                assert!(count.is_consistent());
            }
        }
    }
}

#[test]
fn end_to_end_with_transform() {
    let mut doc = sample_document();
    let mut nodes = library("NODE");
    nodes.root_node = Some(RootNode { render_nodes: vec![node("1 0 0 0 0 1 0 0 0 0 1 0 5 6 7 1")] });
    doc.database.libraries.push(nodes);
    doc.database.type_info = vec![TypeInfo { name: "RENDERDATASOURCE".to_string(), type_count: 1 }];
    let (entity, count) = parse(doc).unwrap();
    let t = entity.translation;
    assert_eq!([f32::from_bits(t[0].bits), f32::from_bits(t[1].bits), f32::from_bits(t[2].bits)], [5.0, 6.0, 7.0]);
    assert!(count.is_consistent());
}

#[test]
fn convert_file_names_one_object_by_the_stem() {
    let c = convert_file(sample_document(), "model").unwrap();
    assert_eq!(c.files.len(), 1);
    assert_eq!(c.files[0].name, "model.obj");
    assert_eq!(
        c.files[0].text,
        "# Vertices: 1\nv 1.0000 2.0000 3.0000\n\n# UVs: 1\nvt 0.5000 0.5000\n\n# Faces: 1\nf 1/1 1/1 1/1\n"
    );
    assert_eq!(c.entity.objects.len(), 1);
    assert_eq!(c.source_count.declared, 3);
}

#[test]
fn convert_file_numbers_several_objects_from_one() {
    let mut doc = sample_document();
    let extra: Vec<RenderDataSource> = (0..11).map(|_| source("triangles", 0, "ushort", Some(""), &[])).collect();
    doc.database.libraries[2].segment_sets.push(SegmentSet { render_data_sources: extra });
    let c = convert_file(doc, "dir/model").unwrap();
    assert_eq!(c.files.len(), 12);
    for (i, f) in c.files.iter().enumerate() {
        assert_eq!(f.name, format!("dir/model-{}.obj", i + 1));
    }
    assert_eq!(c.files[11].text, "# Vertices: 0\n\n# UVs: 0\n\n# Faces: 0\n");
}

#[test]
fn convert_file_without_objects_or_on_failure_gives_no_file() {
    let c = convert_file(document(vec![], vec![]), "model").unwrap();
    assert!(c.files.is_empty());
    assert!(c.source_count.is_consistent());
    let mut doc = sample_document();
    doc.database.libraries[1].data_blocks[0].element_count = 2;
    assert_eq!(convert_file(doc, "model").unwrap_err().kind, ErrorKind::CountMismatch);
}
