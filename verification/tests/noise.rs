use tracer::material::{DiffuseLight, Lambertian};
use tracer::perlin::PerlinTables;
use tracer::radiance::{path_continues, MAX_DEPTH};

#[test]
fn each_table_is_a_permutation_of_the_indices() {
    let tables = PerlinTables::new();
    for axis in 0..3 {
        let mut seen = vec![false; 256];
        for i in 0..256 {
            let v = match axis {
                0 => tables.x_entry(i),
                1 => tables.y_entry(i),
                _ => tables.z_entry(i),
            };
            assert!(!seen[v as usize], "value repeated in a permutation table");
            seen[v as usize] = true;
        }
        assert!(seen.iter().all(|&s| s));
    }
}

#[test]
fn gradient_index_is_the_xor_of_the_three_tables() {
    let tables = PerlinTables::new();
    for &(ci, cj, ck) in &[(0i64, 0i64, 0i64), (1, 2, 3), (255, 256, 257), (1000, 4, 99)] {
        let expected = tables.x_entry((ci & 255) as usize)
            ^ tables.y_entry((cj & 255) as usize)
            ^ tables.z_entry((ck & 255) as usize);
        assert_eq!(tables.gradient_index(ci, cj, ck), expected);
    }
}

#[test]
fn gradient_index_wraps_negative_lattice_coordinates() {
    let tables = PerlinTables::new();
    // -1 wraps to 255, -256 to 0: the lattice repeats every 256 cells
    assert_eq!(tables.gradient_index(-1, 0, 0), tables.gradient_index(255, 0, 0));
    assert_eq!(tables.gradient_index(0, -256, 0), tables.gradient_index(0, 0, 0));
    assert_eq!(tables.gradient_index(0, 0, -255), tables.gradient_index(0, 0, 1));
}

#[test]
fn materials_keep_their_texture_ids() {
    assert_eq!(Lambertian::new(3).albedo, 3);
    assert_eq!(Lambertian::new(0).albedo, 0);
    assert_eq!(DiffuseLight::new(4).emit, 4);
}

#[test]
fn paths_stop_at_the_depth_cap_or_on_absorption() {
    assert_eq!(MAX_DEPTH, 50);
    assert!(path_continues(0, true));
    assert!(path_continues(49, true));
    assert!(!path_continues(50, true));
    assert!(!path_continues(60, true));
    assert!(!path_continues(0, false));
    assert!(!path_continues(49, false));
}
