use celestial::geometry::{
    face_axes, grid_position, make_vertex, spherical_cuboid, CubeMesh, Lattice, MeshError, Vertex,
    MAX_SUBDIVISIONS,
};

fn mesh(subdivisions: u32, invert: bool, inflate: bool) -> CubeMesh {
    spherical_cuboid(subdivisions, invert, inflate).expect("a mesh")
}

fn length(p: Lattice) -> f64 {
    let (x, y, z) = (p.x as f64, p.y as f64, p.z as f64);
    (x * x + y * y + z * z).sqrt()
}

/// World position of a vertex of a mesh made for `radius`.
fn world_position(mesh: &CubeMesh, vertex: &Vertex, radius: f64) -> [f64; 3] {
    let p = vertex.position;
    let scale = if mesh.inflate {
        radius / length(p)
    } else {
        radius / (2.0 * mesh.subdivisions as f64)
    };
    [p.x as f64 * scale, p.y as f64 * scale, p.z as f64 * scale]
}

#[test]
fn end_to_end_sphere_of_radius_100() {
    let mesh = mesh(2, false, true);
    assert_eq!(mesh.vertices.len(), 54);
    assert_eq!(mesh.indices.len() / 3, 48);
    assert_eq!(mesh.indices.len() % 3, 0);
    for vertex in &mesh.vertices {
        let [x, y, z] = world_position(&mesh, vertex, 100.0);
        let magnitude = (x * x + y * y + z * z).sqrt();
        assert!((magnitude - 100.0).abs() < 1e-9);
    }
}

#[test]
fn counts_follow_the_subdivisions() {
    for subdivisions in [1u32, 2, 3, 7, 16, 32] {
        for invert in [false, true] {
            for inflate in [false, true] {
                let mesh = mesh(subdivisions, invert, inflate);
                let s = subdivisions as usize;
                assert_eq!(mesh.vertices.len(), 6 * (s + 1) * (s + 1));
                assert_eq!(mesh.indices.len(), 6 * s * s * 2 * 3);
                assert_eq!(mesh.subdivisions, subdivisions);
                assert_eq!(mesh.inflate, inflate);
            }
        }
    }
}

#[test]
fn zero_subdivisions_are_refused() {
    for invert in [false, true] {
        for inflate in [false, true] {
            assert_eq!(
                spherical_cuboid(0, invert, inflate).err(),
                Some(MeshError::ZeroSubdivisions)
            );
        }
    }
}

#[test]
fn flat_vertices_lie_on_the_cube() {
    let radius = 3.0f64;
    for subdivisions in [1u32, 2, 5] {
        let mesh = mesh(subdivisions, false, false);
        let s = subdivisions as i64;
        for vertex in &mesh.vertices {
            let p = vertex.position;
            let extent = p.x.abs().max(p.y.abs()).max(p.z.abs());
            assert_eq!(extent, s);
            let [x, y, z] = world_position(&mesh, vertex, radius);
            let reach = x.abs().max(y.abs()).max(z.abs());
            assert!((reach - radius / 2.0).abs() < 1e-12);
        }
    }
}

#[test]
fn inflated_vertices_have_the_radius_as_magnitude() {
    for (radius, subdivisions) in [(1.0f64, 1u32), (150.0, 16), (35000.0, 32)] {
        let mesh = mesh(subdivisions, true, true);
        for vertex in &mesh.vertices {
            let [x, y, z] = world_position(&mesh, vertex, radius);
            let magnitude = (x * x + y * y + z * z).sqrt();
            assert!((magnitude - radius).abs() < 1e-9 * radius);
        }
    }
}

#[test]
fn first_face_of_the_unit_cube() {
    let mesh = mesh(1, false, false);
    let outward = Lattice { x: -1, y: 0, z: 0 };
    let expected = [
        Vertex { position: Lattice { x: -1, y: -1, z: -1 }, normal: outward, row: 0, column: 0 },
        Vertex { position: Lattice { x: -1, y: -1, z: 1 }, normal: outward, row: 0, column: 1 },
        Vertex { position: Lattice { x: -1, y: 1, z: -1 }, normal: outward, row: 1, column: 0 },
        Vertex { position: Lattice { x: -1, y: 1, z: 1 }, normal: outward, row: 1, column: 1 },
    ];
    assert_eq!(&mesh.vertices[0..4], &expected[..]);
}

#[test]
fn indices_of_the_unit_cube() {
    let plain = mesh(1, false, true);
    let inverted = mesh(1, true, true);
    let mut expected_plain = Vec::new();
    let mut expected_inverted = Vec::new();
    for face in 0..6u32 {
        let start = 4 * face;
        expected_plain.extend_from_slice(&[
            start,
            start + 1,
            start + 2,
            start + 1,
            start + 3,
            start + 2,
        ]);
        expected_inverted.extend_from_slice(&[
            start,
            start + 2,
            start + 1,
            start + 1,
            start + 2,
            start + 3,
        ]);
    }
    assert_eq!(plain.indices, expected_plain);
    assert_eq!(inverted.indices, expected_inverted);
}

#[test]
fn indices_of_a_cell_in_the_middle() {
    // Face 3, row 1, column 2 of a cube with 4 subdivisions.
    let plain = mesh(4, false, true);
    let inverted = mesh(4, true, true);
    let cell = 3 * 16 + 1 * 4 + 2;
    let start = 3 * 25 + 1 * 5 + 2;
    assert_eq!(
        &plain.indices[6 * cell..6 * cell + 6],
        &[start, start + 1, start + 5, start + 1, start + 6, start + 5]
    );
    assert_eq!(
        &inverted.indices[6 * cell..6 * cell + 6],
        &[start, start + 5, start + 1, start + 1, start + 5, start + 6]
    );
}

#[test]
fn inverting_reverses_each_triangle_over_the_same_vertices() {
    for subdivisions in [1u32, 2, 3, 8] {
        for inflate in [false, true] {
            let plain = mesh(subdivisions, false, inflate);
            let inverted = mesh(subdivisions, true, inflate);
            assert_eq!(plain.vertices, inverted.vertices);
            assert_eq!(plain.indices.len(), inverted.indices.len());
            for (a, b) in plain.indices.chunks(3).zip(inverted.indices.chunks(3)) {
                assert_eq!([a[0], a[1], a[2]], [b[0], b[2], b[1]]);
                let mut reversed = [a[2], a[1], a[0]];
                reversed.rotate_right(1);
                assert_eq!(reversed, [b[0], b[1], b[2]]);
            }
        }
    }
}

#[test]
fn every_index_names_a_vertex_and_no_triangle_is_degenerate() {
    for subdivisions in [1u32, 2, 5] {
        for invert in [false, true] {
            let mesh = mesh(subdivisions, invert, true);
            for triangle in mesh.indices.chunks(3) {
                for &index in triangle {
                    assert!((index as usize) < mesh.vertices.len());
                }
                assert_ne!(triangle[0], triangle[1]);
                assert_ne!(triangle[0], triangle[2]);
                assert_ne!(triangle[1], triangle[2]);
            }
        }
    }
}

fn cross(a: [i64; 3], b: [i64; 3]) -> [i64; 3] {
    [a[1] * b[2] - a[2] * b[1], a[2] * b[0] - a[0] * b[2], a[0] * b[1] - a[1] * b[0]]
}

#[test]
fn plain_triangles_face_outwards_and_inverted_ones_inwards() {
    for invert in [false, true] {
        let mesh = mesh(3, invert, false);
        for triangle in mesh.indices.chunks(3) {
            let p: Vec<[i64; 3]> = triangle
                .iter()
                .map(|&i| {
                    let p = mesh.vertices[i as usize].position;
                    [p.x, p.y, p.z]
                })
                .collect();
            let e1 = [p[1][0] - p[0][0], p[1][1] - p[0][1], p[1][2] - p[0][2]];
            let e2 = [p[2][0] - p[0][0], p[2][1] - p[0][1], p[2][2] - p[0][2]];
            let n = cross(e1, e2);
            let outwards = n[0] * p[0][0] + n[1] * p[0][1] + n[2] * p[0][2];
            if invert {
                assert!(outwards < 0);
            } else {
                assert!(outwards > 0);
            }
        }
    }
}

#[test]
fn normals_point_outwards() {
    let flat = mesh(2, false, false);
    for vertex in &flat.vertices {
        let (p, n) = (vertex.position, vertex.normal);
        assert_eq!(n.x * n.x + n.y * n.y + n.z * n.z, 1);
        assert_eq!(p.x * n.x + p.y * n.y + p.z * n.z, 2);
    }
    let round = mesh(2, false, true);
    for vertex in &round.vertices {
        assert_eq!(vertex.normal, vertex.position);
    }
}

#[test]
fn texture_coordinates_run_over_each_face() {
    let mesh = mesh(3, false, true);
    for face in 0..6usize {
        for i in 0..4usize {
            for j in 0..4usize {
                let vertex = mesh.vertices[face * 16 + i * 4 + j];
                assert_eq!((vertex.row, vertex.column), (i as u32, j as u32));
                let (u, v) = (vertex.row as f64 / 3.0, vertex.column as f64 / 3.0);
                assert!((0.0..=1.0).contains(&u) && (0.0..=1.0).contains(&v));
            }
        }
    }
}

#[test]
fn face_axes_are_the_six_sides() {
    let unit = |x, y, z| Lattice { x, y, z };
    let expected = [
        (unit(-1, 0, 0), unit(0, 1, 0), unit(0, 0, 1)),
        (unit(1, 0, 0), unit(0, 0, 1), unit(0, 1, 0)),
        (unit(0, -1, 0), unit(0, 0, 1), unit(1, 0, 0)),
        (unit(0, 1, 0), unit(1, 0, 0), unit(0, 0, 1)),
        (unit(0, 0, -1), unit(1, 0, 0), unit(0, 1, 0)),
        (unit(0, 0, 1), unit(0, 1, 0), unit(1, 0, 0)),
    ];
    for face in 0..6u32 {
        let axes = face_axes(face);
        assert_eq!((axes.normal, axes.u, axes.v), expected[face as usize]);
    }
}

#[test]
fn grid_positions_step_by_two() {
    assert_eq!(grid_position(4, 0, 0, 0), Lattice { x: -4, y: -4, z: -4 });
    assert_eq!(grid_position(4, 0, 1, 0), Lattice { x: -4, y: -2, z: -4 });
    assert_eq!(grid_position(4, 0, 0, 3), Lattice { x: -4, y: -4, z: 2 });
    assert_eq!(grid_position(4, 1, 4, 2), Lattice { x: 4, y: 0, z: 4 });
    assert_eq!(grid_position(4, 2, 1, 3), Lattice { x: 2, y: -4, z: -2 });
    assert_eq!(grid_position(4, 3, 1, 3), Lattice { x: -2, y: 4, z: 2 });
    assert_eq!(grid_position(4, 4, 1, 3), Lattice { x: -2, y: 2, z: -4 });
    assert_eq!(grid_position(4, 5, 1, 3), Lattice { x: 2, y: -2, z: 4 });
}

#[test]
fn make_vertex_matches_the_mesh() {
    let mesh = mesh(2, false, true);
    let vertex = make_vertex(2, true, 5, 1, 2);
    assert_eq!(vertex, mesh.vertices[5 * 9 + 1 * 3 + 2]);
    assert_eq!(vertex.position, Lattice { x: 2, y: 0, z: 2 });
}

#[test]
fn largest_mesh_keeps_its_indices_in_32_bits() {
    let side = MAX_SUBDIVISIONS as u64 + 1;
    assert!(6 * side * side <= u32::MAX as u64);
    assert!(6 * (side + 1) * (side + 1) > u32::MAX as u64);
}
