use gltf_hulls::mesh::Vertex;
use gltf_hulls::transform::{Transform, transform_vertex};

fn v(x: f32, y: f32, z: f32) -> Vertex {
    Vertex { x: x.to_bits(), y: y.to_bits(), z: z.to_bits() }
}

fn bits3(a: f32, b: f32, c: f32) -> [u32; 3] {
    [a.to_bits(), b.to_bits(), c.to_bits()]
}

fn back(p: Vertex) -> (f32, f32, f32) {
    (f32::from_bits(p.x), f32::from_bits(p.y), f32::from_bits(p.z))
}

fn identity_rotation() -> [u32; 4] {
    [0.0f32.to_bits(), 0.0f32.to_bits(), 0.0f32.to_bits(), 1.0f32.to_bits()]
}

#[test]
fn translation_only_is_exact() {
    let t = Transform {
        translation: bits3(1.0, 2.0, 3.0),
        rotation: identity_rotation(),
        scale: bits3(1.0, 1.0, 1.0),
    };
    assert_eq!(back(transform_vertex(&t, v(0.0, 0.0, 0.0))), (1.0, 2.0, 3.0));
    assert_eq!(back(transform_vertex(&t, v(1.0, 1.0, 1.0))), (2.0, 3.0, 4.0));
    assert_eq!(back(transform_vertex(&t, v(-4.0, 0.5, 2.0))), (-3.0, 2.5, 5.0));
}

#[test]
fn scale_is_applied_before_translation() {
    let t = Transform {
        translation: bits3(1.0, 2.0, 3.0),
        rotation: identity_rotation(),
        scale: bits3(2.0, 3.0, 4.0),
    };
    assert_eq!(back(transform_vertex(&t, v(1.0, 1.0, 1.0))), (3.0, 5.0, 7.0));
}

#[test]
fn quarter_turn_about_z_regression() {
    // A quarter turn about +Z, handed over in (x, y, z, w) component order.
    let h = std::f32::consts::FRAC_1_SQRT_2;
    let t = Transform {
        translation: bits3(0.0, 0.0, 0.0),
        rotation: [0.0f32.to_bits(), 0.0f32.to_bits(), h.to_bits(), h.to_bits()],
        scale: bits3(1.0, 1.0, 1.0),
    };
    let (x, y, z) = back(transform_vertex(&t, v(1.0, 0.0, 0.0)));
    assert!((x - 0.0).abs() < 1e-5, "x was {x}");
    assert!((y - 1.0).abs() < 1e-5, "y was {y}");
    assert!((z - 0.0).abs() < 1e-5, "z was {z}");
}
