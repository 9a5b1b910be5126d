use gltf_hulls::decomp::Hull;
use gltf_hulls::jsondoc::emit_json;
use gltf_hulls::mesh::Vertex;
use gltf_hulls::objdoc::emit_obj;
use gltf_hulls::pipeline::Config;
use gltf_hulls::textenc::fmt_u64;

fn v(x: f32, y: f32, z: f32) -> Vertex {
    Vertex { x: x.to_bits(), y: y.to_bits(), z: z.to_bits() }
}

#[test]
fn fmt_u64_renders_decimal() {
    assert_eq!(fmt_u64(0), b"0".to_vec());
    assert_eq!(fmt_u64(7), b"7".to_vec());
    assert_eq!(fmt_u64(1234), b"1234".to_vec());
    assert_eq!(fmt_u64(1000000), b"1000000".to_vec());
}

#[test]
fn obj_document_layout() {
    let name = b"Shape0".to_vec();
    let verts = vec![v(0.0, 0.0, 0.0), v(1.0, 0.0, 0.0), v(0.0, 1.0, 0.0)];
    let tris = vec![[0u32, 1, 2]];
    let out = emit_obj(&name, &verts, &tris);
    let text = String::from_utf8(out).unwrap();
    assert_eq!(text, "o Shape0\nv 0 0 0\nv 1 0 0\nv 0 1 0\nf 1 2 3\n");
}

#[test]
fn obj_round_trip_faces() {
    let name = b"RoundTrip".to_vec();
    let verts = vec![
        v(0.5, -1.25, 3.0),
        v(1.0, 2.0, 3.0),
        v(4.0, 5.0, 6.0),
        v(7.0, 8.0, 9.0),
    ];
    let tris = vec![[0u32, 2, 1], [2u32, 0, 3], [1u32, 3, 2]];
    let out = emit_obj(&name, &verts, &tris);
    let text = String::from_utf8(out).unwrap();
    let mut read_back: Vec<[u32; 3]> = Vec::new();
    for line in text.lines() {
        if let Some(rest) = line.strip_prefix("f ") {
            let parts: Vec<u32> = rest.split(' ').map(|t| t.parse().unwrap()).collect();
            assert_eq!(parts.len(), 3);
            read_back.push([parts[0] - 1, parts[1] - 1, parts[2] - 1]);
        }
    }
    assert_eq!(read_back, tris);
}

#[test]
fn json_document_parses() {
    let hull = Hull {
        verts: vec![v(0.5, 1.0, -2.0), v(1.0, 0.0, 0.0), v(0.0, 1.0, 0.0)],
        tris: vec![[0u32, 1, 2]],
    };
    let out = emit_json(&vec![hull]);
    let text = String::from_utf8(out).unwrap();
    let doc: serde_json::Value = serde_json::from_str(&text).unwrap();
    let shapes = doc["shapes"].as_array().unwrap();
    assert_eq!(shapes.len(), 1);
    let points = shapes[0]["points"].as_array().unwrap();
    assert_eq!(points.len(), 3);
    assert_eq!(points[0]["x"].as_f64().unwrap(), 0.5);
    assert_eq!(points[0]["y"].as_f64().unwrap(), 1.0);
    assert_eq!(points[0]["z"].as_f64().unwrap(), -2.0);
    let tris = shapes[0]["tris"].as_array().unwrap();
    assert_eq!(tris.len(), 1);
    let t0: Vec<u64> = tris[0]
        .as_array()
        .unwrap()
        .iter()
        .map(|x| x.as_u64().unwrap())
        .collect();
    assert_eq!(t0, vec![0, 1, 2]);
}

#[test]
fn json_round_trip_zero_based() {
    let hull = Hull {
        verts: vec![v(0.0, 0.0, 0.0), v(1.0, 0.0, 0.0), v(0.0, 1.0, 0.0), v(0.0, 0.0, 1.0)],
        tris: vec![[0u32, 1, 2], [10u32, 11, 12]],
    };
    let out = emit_json(&vec![hull]);
    let doc: serde_json::Value = serde_json::from_slice(&out).unwrap();
    let tris = doc["shapes"][0]["tris"].as_array().unwrap();
    let flat: Vec<u64> = tris
        .iter()
        .flat_map(|t| t.as_array().unwrap().iter().map(|x| x.as_u64().unwrap()))
        .collect();
    assert_eq!(flat, vec![0, 1, 2, 10, 11, 12]);
}

#[test]
fn json_empty_shapes() {
    let out = emit_json(&Vec::new());
    let doc: serde_json::Value = serde_json::from_slice(&out).unwrap();
    assert_eq!(doc["shapes"].as_array().unwrap().len(), 0);
}

#[test]
fn config_defaults() {
    let c = Config::default();
    assert_eq!(c.append, b"-shape".to_vec());
    assert!(c.input_name.is_empty());
    assert_eq!(c.params.max_hulls, 1024);
    assert_eq!(c.params.resolution, 128);
    assert!(!c.json_only);
    assert!(!c.combine_meshes);
    assert!(c.log_success);
}
