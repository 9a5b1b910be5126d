use gltf_hulls::aggregate::combine_meshes;
use gltf_hulls::decomp::{DecompParams, FillPolicy, GroupOutcome, Hull, decompose_group};
use gltf_hulls::mesh::{MeshError, Primitive, Vertex, WorldMesh, extract_mesh, group_triangles};
use gltf_hulls::pipeline::{Config, convert, emit_outputs};
use gltf_hulls::scene::{MeshData, Scene, SceneNode, walk_scenes};
use gltf_hulls::transform::Transform;

fn v(x: f32, y: f32, z: f32) -> Vertex {
    Vertex { x: x.to_bits(), y: y.to_bits(), z: z.to_bits() }
}

fn bits3(a: f32, b: f32, c: f32) -> [u32; 3] {
    [a.to_bits(), b.to_bits(), c.to_bits()]
}

fn identity_transform() -> Transform {
    Transform {
        translation: bits3(0.0, 0.0, 0.0),
        rotation: [0.0f32.to_bits(), 0.0f32.to_bits(), 0.0f32.to_bits(), 1.0f32.to_bits()],
        scale: bits3(1.0, 1.0, 1.0),
    }
}

fn translated(dx: f32) -> Transform {
    Transform {
        translation: bits3(dx, 0.0, 0.0),
        rotation: [0.0f32.to_bits(), 0.0f32.to_bits(), 0.0f32.to_bits(), 1.0f32.to_bits()],
        scale: bits3(1.0, 1.0, 1.0),
    }
}

fn cube_verts() -> Vec<Vertex> {
    let mut verts = Vec::new();
    for &x in &[0.0f32, 1.0] {
        for &y in &[0.0f32, 1.0] {
            for &z in &[0.0f32, 1.0] {
                verts.push(v(x, y, z));
            }
        }
    }
    verts
}

fn cube_tris() -> Vec<u32> {
    vec![
        0, 1, 3, 0, 3, 2, 4, 6, 7, 4, 7, 5, 0, 4, 5, 0, 5, 1, 2, 3, 7, 2, 7, 6, 0, 2, 6, 0, 6, 4,
        1, 5, 7, 1, 7, 3,
    ]
}

fn cube_mesh_data(name: &[u8]) -> MeshData {
    MeshData {
        name: Some(name.to_vec()),
        primitives: vec![Primitive { positions: Some(cube_verts()), indices: Some(cube_tris()) }],
    }
}

fn small_params() -> DecompParams {
    DecompParams {
        max_hulls: 4,
        resolution: 32,
        fill: FillPolicy::FloodFill { detect_cavities: true },
    }
}

#[test]
fn group_triangles_groups_in_order() {
    let tris = group_triangles(&vec![5u32, 6, 7, 8, 9, 10]).unwrap();
    assert_eq!(tris, vec![[5u32, 6, 7], [8u32, 9, 10]]);
}

#[test]
fn malformed_index_stream_is_rejected() {
    // An index stream of length 4 does not group into whole triangles.
    assert_eq!(group_triangles(&vec![0u32, 1, 2, 2]), Err(MeshError::MalformedMesh));
    let prims = vec![Primitive {
        positions: Some(vec![v(0.0, 0.0, 0.0), v(1.0, 0.0, 0.0), v(0.0, 1.0, 0.0)]),
        indices: Some(vec![0, 1, 2, 2]),
    }];
    assert!(matches!(extract_mesh(&prims), Err(MeshError::MalformedMesh)));
}

#[test]
fn out_of_range_index_is_rejected() {
    let prims = vec![Primitive {
        positions: Some(vec![v(0.0, 0.0, 0.0), v(1.0, 0.0, 0.0), v(0.0, 1.0, 0.0)]),
        indices: Some(vec![0, 1, 3]),
    }];
    assert!(matches!(extract_mesh(&prims), Err(MeshError::MalformedMesh)));
}

#[test]
fn extraction_concatenates_primitives() {
    let prims = vec![
        Primitive {
            positions: Some(vec![v(0.0, 0.0, 0.0), v(1.0, 0.0, 0.0), v(0.0, 1.0, 0.0)]),
            indices: Some(vec![0, 1, 2]),
        },
        Primitive { positions: Some(vec![v(5.0, 5.0, 5.0)]), indices: None },
    ];
    let m = extract_mesh(&prims).unwrap();
    assert_eq!(m.verts.len(), 4);
    assert_eq!(m.tris, vec![[0u32, 1, 2]]);
}

#[test]
fn malformed_mesh_skipped_sibling_processed() {
    // The malformed node is reported; its sibling still yields a mesh.
    let bad = SceneNode {
        mesh: Some(MeshData {
            name: Some(b"Bad".to_vec()),
            primitives: vec![Primitive {
                positions: Some(vec![v(0.0, 0.0, 0.0), v(1.0, 0.0, 0.0), v(0.0, 1.0, 0.0)]),
                indices: Some(vec![0, 1, 2, 2]),
            }],
        }),
        transform: identity_transform(),
    };
    let good = SceneNode { mesh: Some(cube_mesh_data(b"Good")), transform: identity_transform() };
    let scenes = vec![Scene { nodes: vec![bad, good] }];
    let (meshes, errors) = walk_scenes(&scenes);
    assert_eq!(meshes.len(), 1);
    assert_eq!(meshes[0].name, b"Good".to_vec());
    assert_eq!(errors, vec![MeshError::MalformedMesh]);
}

#[test]
fn meshless_nodes_are_skipped_silently() {
    let scenes = vec![Scene {
        nodes: vec![SceneNode { mesh: None, transform: identity_transform() }],
    }];
    let (meshes, errors) = walk_scenes(&scenes);
    assert!(meshes.is_empty());
    assert!(errors.is_empty());
}

#[test]
fn missing_mesh_name_falls_back() {
    let scenes = vec![Scene {
        nodes: vec![SceneNode {
            mesh: Some(MeshData {
                name: None,
                primitives: vec![Primitive {
                    positions: Some(vec![v(0.0, 0.0, 0.0)]),
                    indices: None,
                }],
            }),
            transform: identity_transform(),
        }],
    }];
    let (meshes, _) = walk_scenes(&scenes);
    assert_eq!(meshes[0].name, b"New Obj".to_vec());
}

#[test]
fn combine_rebases_indices() {
    let a = WorldMesh {
        name: b"A".to_vec(),
        verts: vec![v(0.0, 0.0, 0.0), v(1.0, 0.0, 0.0), v(0.0, 1.0, 0.0)],
        tris: vec![[0u32, 1, 2]],
    };
    let b = WorldMesh {
        name: b"B".to_vec(),
        verts: vec![v(5.0, 0.0, 0.0), v(6.0, 0.0, 0.0), v(5.0, 1.0, 0.0)],
        tris: vec![[0u32, 2, 1]],
    };
    let c = combine_meshes(&vec![a, b]);
    assert_eq!(c.name, b"A".to_vec());
    assert_eq!(c.verts.len(), 6);
    assert_eq!(c.tris, vec![[0u32, 1, 2], [3u32, 5, 4]]);
    // Re-based triangles still name the same geometry.
    assert_eq!(c.verts[c.tris[1][0] as usize], v(5.0, 0.0, 0.0));
}

#[test]
fn combine_of_nothing_uses_fallback_name() {
    let c = combine_meshes(&Vec::new());
    assert_eq!(c.name, b"Unknown Shape".to_vec());
    assert!(c.verts.is_empty());
    assert!(c.tris.is_empty());
}

#[test]
fn decompose_cube_yields_hulls() {
    let flat = group_triangles(&cube_tris()).unwrap();
    let mesh = WorldMesh { name: b"Cube".to_vec(), verts: cube_verts(), tris: flat };
    let hulls = decompose_group(&small_params(), &mesh).unwrap();
    assert!(!hulls.is_empty());
    assert!(!hulls[0].verts.is_empty());
    assert!(!hulls[0].tris.is_empty());
}

#[test]
fn positionless_primitive_contributes_nothing() {
    // A primitive without a position stream contributes neither vertices
    // nor triangles, even when it carries an index stream.
    let prims = vec![
        Primitive { positions: None, indices: Some(vec![0, 1, 2]) },
        Primitive {
            positions: Some(vec![v(0.0, 0.0, 0.0), v(1.0, 0.0, 0.0), v(0.0, 1.0, 0.0)]),
            indices: None,
        },
    ];
    let m = extract_mesh(&prims).unwrap();
    assert_eq!(m.verts.len(), 3);
    assert!(m.tris.is_empty());
}

#[test]
fn decompose_rejects_repeated_index_triangle() {
    // A triangle with a repeated index is fully degenerate; the service
    // must not see it.
    let mesh = WorldMesh {
        name: b"Degenerate".to_vec(),
        verts: vec![v(0.0, 0.0, 0.0), v(1.0, 0.0, 0.0), v(0.0, 1.0, 0.0)],
        tris: vec![[0u32, 0, 0]],
    };
    assert!(matches!(
        decompose_group(&small_params(), &mesh),
        Err(MeshError::DecompositionError)
    ));
}

#[test]
fn decompose_rejects_zero_extent_geometry() {
    // All vertices at one point: the bounding box has no extent.
    let mesh = WorldMesh {
        name: b"Point".to_vec(),
        verts: vec![v(0.0, 0.0, 0.0), v(0.0, 0.0, 0.0), v(0.0, 0.0, 0.0)],
        tris: vec![[0u32, 1, 2]],
    };
    assert!(matches!(
        decompose_group(&small_params(), &mesh),
        Err(MeshError::DecompositionError)
    ));
}

#[test]
fn decompose_accepts_flat_geometry() {
    // A flat mesh has a positive extent on some axis: the voxelizer gives
    // the thin axis its minimum two cells and proceeds, so it is accepted.
    let mesh = WorldMesh {
        name: b"Flat".to_vec(),
        verts: vec![v(0.0, 0.0, 0.0), v(1.0, 0.0, 0.0), v(0.0, 1.0, 0.0), v(1.0, 1.0, 0.0)],
        tris: vec![[0u32, 1, 2], [1u32, 3, 2]],
    };
    assert!(decompose_group(&small_params(), &mesh).is_ok());
}

#[test]
fn decompose_rejects_non_finite_geometry() {
    let mesh = WorldMesh {
        name: b"NaN".to_vec(),
        verts: vec![v(f32::NAN, 0.0, 0.0), v(1.0, 2.0, 0.5), v(0.0, 1.0, 1.5)],
        tris: vec![[0u32, 1, 2]],
    };
    assert!(matches!(
        decompose_group(&small_params(), &mesh),
        Err(MeshError::DecompositionError)
    ));
}

#[test]
fn decompose_rejects_degenerate_group() {
    let mesh = WorldMesh { name: b"Empty".to_vec(), verts: vec![v(0.0, 0.0, 0.0)], tris: vec![] };
    assert!(matches!(
        decompose_group(&small_params(), &mesh),
        Err(MeshError::DecompositionError)
    ));
}

#[test]
fn obj_records_are_named_per_hull() {
    let hull = Hull {
        verts: vec![v(0.0, 0.0, 0.0), v(1.0, 0.0, 0.0), v(0.0, 1.0, 0.0)],
        tris: vec![[0u32, 1, 2]],
    };
    let outcomes = vec![GroupOutcome::Hulls { name: b"Shape".to_vec(), hulls: vec![hull] }];
    let records = emit_outputs(false, &b"ignored".to_vec(), &b"-shape".to_vec(), outcomes);
    assert_eq!(records.len(), 1);
    assert_eq!(records[0].filename, b"Shape0-shape.obj".to_vec());
    let text = String::from_utf8(records[0].content.clone()).unwrap();
    assert!(text.starts_with("o Shape0\n"));
    assert!(text.ends_with("f 1 2 3\n"));
}

#[test]
fn two_nodes_combined_json_single_file() {
    // Two meshed nodes with fusion and JSON output: exactly one document,
    // holding as many shapes as the single combined group decomposes into.
    let scenes = vec![Scene {
        nodes: vec![
            SceneNode { mesh: Some(cube_mesh_data(b"A")), transform: identity_transform() },
            SceneNode { mesh: Some(cube_mesh_data(b"B")), transform: translated(3.0) },
        ],
    }];
    let cfg = Config {
        input_name: b"model.gltf".to_vec(),
        append: b"-shape".to_vec(),
        params: small_params(),
        json_only: true,
        combine_meshes: true,
        log_success: false,
    };
    let out = convert(&scenes, &cfg);
    assert!(out.errors.is_empty());
    assert_eq!(out.records.len(), 1);
    assert_eq!(out.records[0].filename, b"model.gltf-shape.json".to_vec());
    let doc: serde_json::Value = serde_json::from_slice(&out.records[0].content).unwrap();
    let shapes = doc["shapes"].as_array().unwrap();

    let (meshes, _) = walk_scenes(&scenes);
    let combined = combine_meshes(&meshes);
    let hulls = decompose_group(&small_params(), &combined).unwrap();
    assert_eq!(shapes.len(), hulls.len());
    assert!(!shapes.is_empty());
}

#[test]
fn repeated_runs_are_byte_identical() {
    let scenes = vec![Scene {
        nodes: vec![
            SceneNode { mesh: Some(cube_mesh_data(b"A")), transform: identity_transform() },
            SceneNode { mesh: Some(cube_mesh_data(b"B")), transform: translated(2.5) },
        ],
    }];
    let cfg = Config {
        input_name: b"model.gltf".to_vec(),
        append: b"-shape".to_vec(),
        params: small_params(),
        json_only: true,
        combine_meshes: false,
        log_success: false,
    };
    let first = convert(&scenes, &cfg);
    let second = convert(&scenes, &cfg);
    assert_eq!(first.records.len(), second.records.len());
    for (a, b) in first.records.iter().zip(second.records.iter()) {
        assert_eq!(a.filename, b.filename);
        assert_eq!(a.content, b.content);
    }
}

#[test]
fn convert_obj_mode_writes_one_file_per_hull() {
    let scenes = vec![Scene {
        nodes: vec![SceneNode { mesh: Some(cube_mesh_data(b"Box")), transform: identity_transform() }],
    }];
    let cfg = Config {
        input_name: b"box.gltf".to_vec(),
        append: b"-shape".to_vec(),
        params: DecompParams {
            max_hulls: 1,
            resolution: 32,
            fill: FillPolicy::FloodFill { detect_cavities: true },
        },
        json_only: false,
        combine_meshes: false,
        log_success: false,
    };
    let out = convert(&scenes, &cfg);
    assert!(out.errors.is_empty());
    assert!(!out.records.is_empty());
    assert!(out.records[0].filename.starts_with(b"Box0"));
    assert!(out.records[0].filename.ends_with(b"-shape.obj"));
}
