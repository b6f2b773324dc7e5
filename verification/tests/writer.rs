use journey_model_parser::entity::Entity;
use journey_model_parser::format::{decimal_text, push_decimal, push_fixed};
use journey_model_parser::object::{Advisories, Object};
use journey_model_parser::single::Single;

fn single(x: f32) -> Single {
    Single { bits: x.to_bits() }
}

fn fixed(x: f32) -> String {
    let mut s = String::new();
    push_fixed(&mut s, single(x));
    s
}

fn object(vertices: &[[f32; 3]], uvs: &[[f32; 2]], faces: &[[u32; 3]]) -> Object {
    Object {
        vertices: vertices.iter().map(|v| [single(v[0]), single(v[1]), single(v[2])]).collect(),
        uvs: uvs.iter().map(|u| [single(u[0]), single(u[1])]).collect(),
        faces: faces.to_vec(),
        advisories: Advisories {
            unexpected_index_type: false,
            not_multiple_of_three: false,
            face_count_mismatch: false,
        },
    }
}

#[test]
fn decimal_numerals() {
    assert_eq!(decimal_text(0), "0");
    assert_eq!(decimal_text(9), "9");
    assert_eq!(decimal_text(10), "10");
    assert_eq!(decimal_text(4294967296), "4294967296");
    assert_eq!(decimal_text(u128::MAX), u128::MAX.to_string());
    let mut s = String::from("n=");
    push_decimal(&mut s, 1203);
    assert_eq!(s, "n=1203");
}

#[test]
fn fixed_notation_exact_values() {
    assert_eq!(fixed(0.0), "0.0000");
    assert_eq!(fixed(-0.0), "-0.0000");
    assert_eq!(fixed(1.0), "1.0000");
    assert_eq!(fixed(-2.5), "-2.5000");
    assert_eq!(fixed(0.5), "0.5000");
    assert_eq!(fixed(1234.0625), "1234.0625");
    assert_eq!(fixed(3.1415927), "3.1416");
    assert_eq!(fixed(0.1), "0.1000");
    assert_eq!(fixed(16777216.0), "16777216.0000");
    assert_eq!(fixed(f32::MAX), "340282346638528859811704183484516925440.0000");
    assert_eq!(fixed(f32::MIN_POSITIVE), "0.0000");
    assert_eq!(fixed(-1e-30), "-0.0000");
    assert_eq!(fixed(0.99996), "1.0000");
    assert_eq!(fixed(9.99996), "10.0000");
}

#[test]
fn fixed_notation_ties_go_to_even() {
    // 1/32 = 0.03125 and 3/32 = 0.09375 are exact; so are their ties at the fourth place
    assert_eq!(fixed(0.03125), "0.0312");
    assert_eq!(fixed(0.09375), "0.0938");
    assert_eq!(fixed(0.00005), format!("{:.4}", 0.00005f32));
    assert_eq!(fixed(2.00005_f32), format!("{:.4}", 2.00005f32));
}

#[test]
fn fixed_notation_special_values() {
    assert_eq!(fixed(f32::INFINITY), "inf");
    assert_eq!(fixed(f32::NEG_INFINITY), "-inf");
    assert_eq!(fixed(f32::NAN), "NaN");
    assert_eq!(fixed(f32::from_bits(0xffc0_0001)), "NaN");
}

#[test]
fn fixed_notation_agrees_with_formatting() {
    let mut bits: u32 = 1;
    let mut n = 0;
    while n < 200_000 {
        let x = f32::from_bits(bits);
        if x.is_finite() {
            assert_eq!(fixed(x), format!("{:.4}", x), "{:#x}", bits);
        }
        bits = bits.wrapping_mul(1664525).wrapping_add(1013904223);
        n += 1;
    }
    for e in 100u32..170 {
        for m in [0u32, 1, 0x400000, 0x7fffff, 0x123456] {
            for s in [0u32, 1] {
                let x = f32::from_bits((s << 31) | (e << 23) | m);
                assert_eq!(fixed(x), format!("{:.4}", x));
            }
        }
    }
}

#[test]
fn faces_are_written_one_based() {
    let o = object(&[[0.0, 0.0, 0.0], [1.0, 0.0, 0.0], [0.0, 1.0, 0.0]], &[], &[[0, 1, 2]]);
    let text = o.to_obj();
    assert!(text.ends_with("\n# Faces: 1\nf 1/1 2/2 3/3\n"));
    assert_eq!(text.lines().last(), Some("f 1/1 2/2 3/3"));
}

#[test]
fn largest_index_is_written_without_wrapping() {
    let o = object(&[], &[], &[[u32::MAX, 0, 9]]);
    assert_eq!(o.to_obj(), "# Vertices: 0\n\n# UVs: 0\n\n# Faces: 1\nf 4294967296/4294967296 1/1 10/10\n");
}

#[test]
fn whole_text_of_a_mesh() {
    let o = object(
        &[[0.0, 0.5, -1.0], [1.0, 2.0, 3.0], [10.25, 0.0001, 0.00004]],
        &[[0.0, 1.0], [0.5, 0.25]],
        &[[0, 1, 2], [2, 1, 0]],
    );
    assert_eq!(
        o.to_obj(),
        "# Vertices: 3\n\
         v 0.0000 0.5000 -1.0000\n\
         v 1.0000 2.0000 3.0000\n\
         v 10.2500 0.0001 0.0000\n\
         \n# UVs: 2\n\
         vt 0.0000 1.0000\n\
         vt 0.5000 0.2500\n\
         \n# Faces: 2\n\
         f 1/1 2/2 3/3\n\
         f 3/3 2/2 1/1\n"
    );
}

#[test]
fn text_of_an_empty_mesh() {
    assert_eq!(object(&[], &[], &[]).to_obj(), "# Vertices: 0\n\n# UVs: 0\n\n# Faces: 0\n");
}

#[test]
fn export_snapshot_is_flat() {
    let e = Entity {
        objects: vec![
            object(&[[1.0, 2.0, 3.0], [4.0, 5.0, 6.0]], &[[0.5, 0.25]], &[[0, 1, 0]]),
            object(&[], &[], &[]),
            object(&[[7.0, 8.0, 9.0]], &[[0.0, 1.0], [1.0, 0.0]], &[[0, 0, 0], [2, 1, 0]]),
        ],
        translation: [single(5.0), single(6.0), single(7.0)],
    };
    let d = e.to_ffi();
    let floats = |v: &Vec<Single>| v.iter().map(|x| f32::from_bits(x.bits)).collect::<Vec<f32>>();
    assert_eq!(d.object_count, 3);
    assert_eq!(floats(&d.vertices), vec![1.0, 2.0, 3.0, 4.0, 5.0, 6.0, 7.0, 8.0, 9.0]);
    assert_eq!(floats(&d.uvs), vec![0.5, 0.25, 0.0, 1.0, 1.0, 0.0]);
    assert_eq!(d.faces, vec![0, 1, 0, 0, 0, 0, 2, 1, 0]);
    assert_eq!(d.vertices_len, vec![6, 0, 3]);
    assert_eq!(d.uvs_len, vec![2, 0, 4]);
    assert_eq!(d.faces_len, vec![3, 0, 6]);
    assert_eq!(floats(&d.translation), vec![5.0, 6.0, 7.0]);
}

#[test]
fn export_snapshot_of_nothing() {
    let e = Entity { objects: vec![], translation: [single(0.0); 3] };
    let d = e.to_ffi();
    assert_eq!(d.object_count, 0);
    assert!(d.vertices.is_empty() && d.uvs.is_empty() && d.faces.is_empty());
    assert!(d.vertices_len.is_empty() && d.uvs_len.is_empty() && d.faces_len.is_empty());
    assert_eq!(d.translation.len(), 3);
}
