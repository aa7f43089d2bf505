use meridian::mesh::{unique_edges, Face};

#[test]
fn triangle_face_and_fan() {
    assert_eq!(Face::triangle(3, 1, 2).indices, vec![3, 1, 2]);
    let quad = Face { indices: vec![0, 1, 2, 3] };
    assert_eq!(quad.triangles(), vec![(0, 1, 2), (0, 2, 3)]);
    assert_eq!(Face { indices: vec![7] }.triangles(), vec![]);
    assert_eq!(Face { indices: vec![7, 8] }.triangles(), vec![]);
}

#[test]
fn shared_edges_are_listed_once() {
    // Two triangles sharing the edge 1-2.
    let faces = vec![Face::triangle(0, 1, 2), Face::triangle(2, 1, 3)];
    assert_eq!(unique_edges(&faces), vec![(0, 1), (1, 2), (0, 2), (1, 3), (2, 3)]);
}

#[test]
fn quad_edges_include_the_fan_diagonal() {
    let faces = vec![Face { indices: vec![0, 1, 2, 3] }];
    assert_eq!(unique_edges(&faces), vec![(0, 1), (1, 2), (0, 2), (2, 3), (0, 3)]);
    assert!(unique_edges(&vec![]).is_empty());
}

use meridian::mesh::icosphere_topology;

#[test]
fn icosphere_topology_counts_and_first_split() {
    let base = icosphere_topology(0);
    assert_eq!(base.faces.len(), 20);
    assert!(base.splits.is_empty());
    assert_eq!(base.faces[0].indices, vec![0, 11, 5]);

    let once = icosphere_topology(1);
    assert_eq!(once.faces.len(), 80);
    // Every one of the icosahedron's 30 edges is split exactly once.
    assert_eq!(once.splits.len(), 30);
    assert_eq!(&once.splits[..3], &[(0, 11), (5, 11), (0, 5)]);
    assert_eq!(once.faces[0].indices, vec![0, 12, 14]);
    assert_eq!(once.faces[1].indices, vec![11, 13, 12]);
    assert_eq!(once.faces[2].indices, vec![5, 14, 13]);
    assert_eq!(once.faces[3].indices, vec![12, 13, 14]);

    let twice = icosphere_topology(2);
    assert_eq!(twice.faces.len(), 320);
    // 12 + 150 = 162 vertices: 10 * 4^2 + 2.
    assert_eq!(twice.splits.len(), 150);
    let max_index = twice.faces.iter().flat_map(|f| f.indices.iter()).copied().max().unwrap();
    assert_eq!(max_index, 161);
}
