use image2multires::naming::{level_dir_name, tile_file_name, u32_to_decimal};

#[test]
fn decimal_rendering() {
    assert_eq!(u32_to_decimal(0), "0");
    assert_eq!(u32_to_decimal(7), "7");
    assert_eq!(u32_to_decimal(10), "10");
    assert_eq!(u32_to_decimal(1234567890), "1234567890");
    assert_eq!(u32_to_decimal(u32::MAX), "4294967295");
}

#[test]
fn level_directory_names() {
    assert_eq!(level_dir_name(1), "1");
    assert_eq!(level_dir_name(12), "12");
}

#[test]
fn rectangular_tile_names() {
    assert_eq!(tile_file_name("photo", 3, 17, false), "photo3_17.jpg");
    assert_eq!(tile_file_name("photo", 0, 0, true), "photo0_0.png");
    assert_eq!(tile_file_name("", 2, 5, false), "2_5.jpg");
}

#[test]
fn cube_tile_names() {
    assert_eq!(tile_file_name("x", 0, 1, true), "x0_1.png");
}

#[test]
fn names_decode_uniquely_under_one_prefix() {
    // Concrete check of the round-trip property: distinct grid positions
    // give distinct names, so a name determines its (row, col).
    let mut names = std::collections::BTreeSet::new();
    for row in 0..12u32 {
        for col in 0..12u32 {
            assert!(names.insert(tile_file_name("img_2", row, col, false)));
        }
    }
    assert_eq!(names.len(), 144);
}
