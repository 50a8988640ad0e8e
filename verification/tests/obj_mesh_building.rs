use ray_tracing_in_a_weekend::obj_loader::ScannerError;
use ray_tracing_in_a_weekend::obj_mesh::ObjLoader;

fn loaded_square() -> ObjLoader<i32, i32, i32> {
    let mut loader = ObjLoader::new(-1);
    loader.add_position(10);
    loader.add_position(11);
    loader.add_position(12);
    loader.add_position(13);
    loader.add_normal(20);
    loader.add_texture_coord(30);
    loader.add_texture_coord(31);
    loader
}

#[test]
fn add_face_fans_a_quad_into_two_triangles() {
    let mut loader = loaded_square();
    loader
        .add_face(&vec![
            (0, Some(0), Some(0)),
            (1, Some(1), Some(0)),
            (2, None, Some(0)),
            (3, None, Some(0)),
        ])
        .unwrap();
    assert_eq!(loader.triangles.len(), 2);

    assert_eq!(loader.triangles[0].positions, [10, 11, 12]);
    assert_eq!(loader.triangles[0].normals, [20, 20, 20]);
    assert_eq!(loader.triangles[0].texture_coords, [30, 31, -1]);

    assert_eq!(loader.triangles[1].positions, [10, 12, 13]);
    assert_eq!(loader.triangles[1].normals, [20, 20, 20]);
    assert_eq!(loader.triangles[1].texture_coords, [30, -1, -1]);
}

#[test]
fn add_face_with_fewer_than_three_corners_adds_nothing() {
    let mut loader = loaded_square();
    loader.add_face(&vec![(0, None, Some(0)), (1, None, Some(0))]).unwrap();
    assert_eq!(loader.triangles.len(), 0);
}

#[test]
fn add_face_rejects_dangling_indices() {
    let mut loader = loaded_square();
    let r = loader.add_face(&vec![(4, None, Some(0))]);
    assert!(matches!(r, Err(ScannerError::PosIdOutOfRange(4))));

    let r = loader.add_face(&vec![(0, Some(2), Some(0))]);
    assert!(matches!(r, Err(ScannerError::TexIdOutOfRange(2))));

    let r = loader.add_face(&vec![(0, None, Some(1))]);
    assert!(matches!(r, Err(ScannerError::NorIdOutOfRange(1))));

    let r = loader.add_face(&vec![(0, None, None)]);
    assert!(matches!(r, Err(ScannerError::MissingNormal)));

    assert_eq!(loader.triangles.len(), 0);
    assert_eq!(loader.positions.len(), 4);
}

#[test]
fn add_face_reports_the_first_bad_corner_and_keeps_state() {
    let mut loader = loaded_square();
    let r = loader.add_face(&vec![
        (0, None, Some(0)),
        (1, Some(7), Some(0)),
        (9, None, Some(0)),
    ]);
    assert!(matches!(r, Err(ScannerError::TexIdOutOfRange(7))));
    assert_eq!(loader.triangles.len(), 0);
}
