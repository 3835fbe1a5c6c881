use neighbours::particle_array::ParticleArray;

#[test]
fn test_particle_array_new_is_zeroed() {
    let p = ParticleArray::new(3);
    assert_eq!(vec![0; 3], p.x);
    assert_eq!(vec![0; 3], p.y);
    assert_eq!(vec![0; 3], p.z);
    assert_eq!(vec![0; 3], p.radius);
}

#[test]
fn test_particle_array_from_xyz_rad_copies() {
    let p = ParticleArray::from_xyz_rad(&[1, 2], &[3, 4], &[5, 6], &[7, 8]);
    assert_eq!(vec![1, 2], p.x);
    assert_eq!(vec![3, 4], p.y);
    assert_eq!(vec![5, 6], p.z);
    assert_eq!(vec![7, 8], p.radius);
}
