// Coordinates are in thousandths of the length unit: 500 stands for 0.5.
use neighbours::nbs3d::NBS3D;
use neighbours::{NnpsError, NNPS};

#[test]
fn test_nbs3d_creation_for_a_given_domain_limits_case_1() {
    let nbs3d = NBS3D::new(0, 3000, 0, 3000, 0, 1000, 1000).unwrap();
    assert_eq!(9, nbs3d.head.len());
    assert_eq!(0, nbs3d.next.len());
}

#[test]
fn test_nbs3d_creation_for_a_given_domain_limits_case_2() {
    let nbs3d = NBS3D::new(0, 2200, 0, 3000, 0, 1000, 1000).unwrap();
    assert_eq!(6, nbs3d.head.len());
}

#[test]
fn test_nbs3d_creation_for_a_given_domain_limits_case_3() {
    let nbs3d = NBS3D::new(0, 3000, 0, 3000, 0, 2000, 1000).unwrap();
    assert_eq!(18, nbs3d.head.len());
    assert_eq!(0, nbs3d.next.len());
}

#[test]
fn test_nbs3d_creation_for_a_given_domain_limits_case_4() {
    let nbs3d = NBS3D::new(0, 2200, 0, 3000, 0, 3200, 1000).unwrap();
    assert_eq!(18, nbs3d.head.len());
}

#[test]
#[should_panic]
fn test_nbs3d_creation_for_a_given_domain_limits_less_than_cell_size() {
    let nbs3d = NBS3D::new(0, 1000, 0, 3000, 0, 100, 1000).unwrap();
    assert_eq!(0, nbs3d.head.len());
}

#[test]
fn test_nbs3d_for_registered_indices_with_single_point_in_each_cell() {
    let x = vec![500, 1500, 2500, 500, 1500, 2500, 500, 1500, 2500];
    let y = vec![500, 500, 500, 1500, 1500, 1500, 2500, 2500, 2500];
    let mut nbs3d = NBS3D::new(0, 3000, 0, 3000, 0, 1000, 1000).unwrap();
    nbs3d.initialize_next(x.len());

    nbs3d.register_particles_to_nnps(&x, &y, &vec![0; x.len()]).unwrap();

    let head_expected = vec![0, 1, 2, 3, 4, 5, 6, 7, 8];
    assert_eq!(head_expected, nbs3d.head);

    let next_expected = vec![usize::MAX; 9];
    assert_eq!(next_expected, nbs3d.next);
}

#[test]
fn test_nbs3d_for_registered_indices_with_many_points_in_each_cell() {
    let m = usize::MAX;
    let x = vec![
        500, 600, 700, 1500, 1600, 1700, 2500, 2600, 2700, 500, 600, 700, 1500, 1600, 1700, 2500,
        2600, 2700, 500, 600, 700, 1500, 1600, 1700, 2500, 2600, 2700,
    ];
    let y = vec![
        500, 500, 500, 500, 500, 500, 500, 500, 500, 1500, 1500, 1500, 1500, 1500, 1500, 1500,
        1500, 1500, 2500, 2500, 2500, 2500, 2500, 2500, 2500, 2500, 2500,
    ];
    let mut nbs3d = NBS3D::new(0, 3000, 0, 3000, 0, 1000, 1000).unwrap();
    nbs3d.initialize_next(x.len());

    nbs3d.register_particles_to_nnps(&x, &y, &vec![0; x.len()]).unwrap();

    let head_expected = vec![2, 5, 8, 11, 14, 17, 20, 23, 26];
    assert_eq!(head_expected, nbs3d.head);

    let next_expected = vec![
        m, 0, 1, m, 3, 4, m, 6, 7, m, 9, 10, m, 12, 13, m, 15, 16, m, 18, 19, m, 21, 22, m, 24, 25,
    ];
    assert_eq!(next_expected, nbs3d.next);
}

#[test]
fn test_nbs3d_get_neighbours_9_cells_with_a_single_point_in_each_cell() {
    let x = vec![500, 1500, 2500, 500, 1500, 2500, 500, 1500, 2500];
    let y = vec![500, 500, 500, 1500, 1500, 1500, 2500, 2500, 2500];
    let mut nbs3d = NBS3D::new(0, 3000, 0, 3000, 0, 1000, 1000).unwrap();
    nbs3d.initialize_next(x.len());

    nbs3d.register_particles_to_nnps(&x, &y, &vec![0; x.len()]).unwrap();

    let nbrs = nbs3d.get_neighbours(1500, 1500, 0);
    let expected_neighbours = vec![4, 3, 5, 1, 0, 2, 7, 6, 8];
    assert_eq!(expected_neighbours, nbrs);
}

#[test]
fn test_nbs3d_get_neighbours_27_cells_with_a_single_point_in_each_cell() {
    let x = vec![
        500, 1500, 2500, 500, 1500, 2500, 500, 1500, 2500, 500, 1500, 2500, 500, 1500, 2500, 500,
        1500, 2500, 500, 1500, 2500, 500, 1500, 2500, 500, 1500, 2500,
    ];
    let y = vec![
        500, 500, 500, 1500, 1500, 1500, 2500, 2500, 2500, 500, 500, 500, 1500, 1500, 1500, 2500,
        2500, 2500, 500, 500, 500, 1500, 1500, 1500, 2500, 2500, 2500,
    ];
    let z = vec![
        -500, -500, -500, -500, -500, -500, -500, -500, -500, 500, 500, 500, 500, 500, 500, 500,
        500, 500, 1500, 1500, 1500, 1500, 1500, 1500, 1500, 1500, 1500,
    ];
    let mut nbs3d = NBS3D::new(0, 3000, 0, 3000, -1000, 2000, 1000).unwrap();
    nbs3d.initialize_next(x.len());

    assert_eq!(27, nbs3d.head.len());

    nbs3d.register_particles_to_nnps(&x, &y, &z).unwrap();

    let nbrs = nbs3d.get_neighbours(1500, 1500, 500);

    // own layer, then the layer above, then the layer below, each in the
    // order of the plane stencil
    let expected_neighbours = vec![
        13, 12, 14, 10, 9, 11, 16, 15, 17, 22, 21, 23, 19, 18, 20, 25, 24, 26, 4, 3, 5, 1, 0, 2, 7,
        6, 8,
    ];
    assert_eq!(expected_neighbours, nbrs);
}

#[test]
fn test_nbs3d_10_particles_on_x_axis() {
    let x = vec![0, 100, 200, 300, 400, 500, 600, 700, 800, 900, 1000];
    let y = vec![0; x.len()];
    let z = vec![0; x.len()];
    let max_coordinate = 2000;

    let max_size = 2 * 50;
    let mut nbs3d = NBS3D::from_maximum_and_no_of_particles(max_coordinate, max_size, x.len()).unwrap();
    nbs3d.register_particles_to_nnps(&x, &y, &z).unwrap();

    assert_eq!(64000, nbs3d.head.len());

    nbs3d.register_particles_to_nnps(&x, &y, &z).unwrap();

    let nbrs = nbs3d.get_neighbours(1500, 1500, 500);
    assert!(nbrs.is_empty());
}

#[test]
fn test_nbs3d_cell_larger_than_domain_is_refused() {
    for (x_max, y_max, z_max) in [(999, 3000, 3000), (3000, 999, 3000), (3000, 3000, 999)] {
        assert_eq!(
            Err(NnpsError::CellSizeExceedsDomain),
            NBS3D::new(0, x_max, 0, y_max, 0, z_max, 1000).map(|g| g.total_no_cells)
        );
    }
    assert_eq!(
        Err(NnpsError::CellSizeExceedsDomain),
        NBS3D::from_maximum_coordinate(499, 1000).map(|g| g.total_no_cells)
    );
    assert_eq!(
        Err(NnpsError::CellSizeExceedsDomain),
        NBS3D::from_limits_and_no_of_particles(0, 3000, 0, 3000, 0, 500, 1000, 4).map(|g| g.total_no_cells)
    );
}

#[test]
fn test_nbs3d_total_cells_is_product_of_axis_counts() {
    let nbs3d = NBS3D::from_limits_and_no_of_particles(-3000, 3000, 0, 2500, 10, 1010, 1000, 5).unwrap();
    assert_eq!((6, 2, 1), (nbs3d.no_x_cells, nbs3d.no_y_cells, nbs3d.no_z_cells));
    assert_eq!(12, nbs3d.total_no_cells);
    assert_eq!(vec![usize::MAX; 12], nbs3d.head);
    assert_eq!(vec![usize::MAX; 5], nbs3d.next);
}

#[test]
fn test_nbs3d_layer_index_and_outside_particles() {
    // the cube [-1000, 1000] cut into 2 x 2 x 2 cells
    let x = vec![500, 500, 500, -500];
    let y = vec![500, 500, 500, -500];
    let z = vec![500, 1500, -1, -500];
    let mut nbs3d = NBS3D::from_maximum_and_no_of_particles(1000, 1000, 4).unwrap();
    assert_eq!(8, nbs3d.total_no_cells);
    nbs3d.register_particles_to_nnps(&x, &y, &z).unwrap();
    let m = usize::MAX;
    // particle 0 is in the upper layer, cell 4 + 2 + 1; particle 1 is above
    // the cube; particle 2 is just below the middle plane
    assert_eq!(vec![3, m, m, 2, m, m, m, 0], nbs3d.head);
    assert_eq!(vec![m; 4], nbs3d.next);
    assert!(nbs3d.get_neighbours(0, 0, 1001).is_empty());
}

#[test]
fn test_nbs3d_register_again_gives_same_arrays() {
    let x = vec![100, 2900, 1500, 1500, 3100];
    let y = vec![100, 2900, 1500, 1600, 0];
    let z = vec![100, 1900, 500, 600, 0];
    let mut nbs3d = NBS3D::from_limits_and_no_of_particles(0, 3000, 0, 3000, 0, 2000, 1000, 5).unwrap();
    nbs3d.register_particles_to_nnps(&x, &y, &z).unwrap();
    let first = nbs3d.clone();
    nbs3d.register_particles_to_nnps(&x, &y, &z).unwrap();
    assert_eq!(first.head, nbs3d.head);
    assert_eq!(first.next, nbs3d.next);
    assert_eq!(vec![3, 2], nbs3d.get_neighbours(1500, 1500, 500)[..2].to_vec());
}

#[test]
fn test_nbs3d_length_mismatch() {
    let mut nbs3d = NBS3D::from_limits_and_no_of_particles(0, 3000, 0, 3000, 0, 2000, 1000, 2).unwrap();
    assert_eq!(
        Err(NnpsError::LengthMismatch),
        nbs3d.register_particles_to_nnps(&[1, 2], &[1, 2], &[1])
    );
    assert_eq!(
        Err(NnpsError::LengthMismatch),
        nbs3d.register_particles_to_nnps(&[1, 2, 3], &[1, 2, 3], &[1, 2, 3])
    );
    assert_eq!(vec![usize::MAX; 18], nbs3d.head);
}
