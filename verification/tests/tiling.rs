use image::DynamicImage;
use image2multires::raster::Raster;
use image2multires::tiler::TileCreator;
use image2multires::TilingError;

fn raster(width: u32, height: u32) -> Raster {
    Raster { image: DynamicImage::new_rgba8(width, height), width, height }
}

#[test]
fn end_to_end_two_level_pyramid() {
    // A 1024 x 1024 source with tile size 512 plans two levels: the finest
    // level is a 2 x 2 grid of exact 512 x 512 tiles, the coarsest is one
    // 512 x 512 raster holding a single tile.
    let tc = TileCreator::new_from_image(raster(1024, 1024), 512, false, "img".to_string())
        .unwrap();
    assert_eq!(tc.plan.level_count, 2);
    let out = tc.create_tiles();
    assert_eq!(out.len(), 2);

    let finest = &out[0];
    assert_eq!(finest.level, 2);
    assert_eq!(finest.dir_name, "2");
    assert_eq!((finest.width, finest.height), (1024, 1024));
    assert_eq!(finest.tiles.len(), 4);
    let names: Vec<&str> = finest.tiles.iter().map(|t| t.name.as_str()).collect();
    assert_eq!(names, ["img0_0.jpg", "img0_1.jpg", "img1_0.jpg", "img1_1.jpg"]);
    for t in finest.tiles.iter() {
        assert_eq!((t.raster.width, t.raster.height), (512, 512));
        assert_eq!((t.raster.image.width(), t.raster.image.height()), (512, 512));
    }

    let coarsest = &out[1];
    assert_eq!(coarsest.level, 1);
    assert_eq!(coarsest.dir_name, "1");
    assert_eq!((coarsest.width, coarsest.height), (512, 512));
    assert_eq!(coarsest.tiles.len(), 1);
    assert_eq!(coarsest.tiles[0].name, "img0_0.jpg");
    assert_eq!(
        (coarsest.tiles[0].raster.width, coarsest.tiles[0].raster.height),
        (512, 512)
    );
    assert_eq!(
        (
            coarsest.tiles[0].raster.image.width(),
            coarsest.tiles[0].raster.image.height()
        ),
        (512, 512)
    );
}

#[test]
fn coarse_levels_clamp_against_their_own_dimensions() {
    // On a non-power-of-two source a coarser level must clamp its tiles
    // against its own halved dimensions, never against the base dimensions.
    let tc = TileCreator::new_from_image(raster(1000, 600), 512, false, "p".to_string())
        .unwrap();
    assert_eq!(tc.plan.level_count, 2);
    let out = tc.create_tiles();

    let finest = &out[0];
    assert_eq!((finest.width, finest.height), (1000, 600));
    assert_eq!(finest.tiles.len(), 4);
    let dims: Vec<(u32, u32)> = finest
        .tiles
        .iter()
        .map(|t| (t.raster.width, t.raster.height))
        .collect();
    assert_eq!(dims, [(512, 512), (488, 512), (512, 88), (488, 88)]);

    let coarsest = &out[1];
    assert_eq!((coarsest.width, coarsest.height), (500, 300));
    assert_eq!(coarsest.tiles.len(), 1);
    assert_eq!(
        (coarsest.tiles[0].raster.width, coarsest.tiles[0].raster.height),
        (500, 300)
    );
    assert_eq!(
        (
            coarsest.tiles[0].raster.image.width(),
            coarsest.tiles[0].raster.image.height()
        ),
        (500, 300)
    );
}

#[test]
fn cube_variant_names_and_format() {
    let tc = TileCreator::new_cube_from_image(raster(1024, 1024), 512).unwrap();
    let out = tc.create_tiles();
    assert_eq!(out.len(), 2);
    let names: Vec<&str> = out[0].tiles.iter().map(|t| t.name.as_str()).collect();
    assert_eq!(names, ["x0_0.png", "x0_1.png", "x1_0.png", "x1_1.png"]);
    assert_eq!(out[1].tiles[0].name, "x0_0.png");
}

#[test]
fn cube_variant_rejects_non_square_source() {
    let r = TileCreator::new_cube_from_image(raster(800, 600), 512);
    assert!(matches!(r, Err(TilingError::UnsupportedSourceImage(_))));
}

#[test]
fn degenerate_source_fails_planning() {
    let r = TileCreator::new_from_image(raster(512, 512), 512, false, "p".to_string());
    assert!(matches!(r, Err(TilingError::PlanningError(_))));
}

#[test]
fn deep_pyramid_dimensions_halve() {
    let tc = TileCreator::new_from_image(raster(1000, 1000), 63, true, "q".to_string())
        .unwrap();
    assert_eq!(tc.plan.level_count, 5);
    let out = tc.create_tiles();
    let dims: Vec<(u32, u32)> = out.iter().map(|l| (l.width, l.height)).collect();
    assert_eq!(dims, [(1000, 1000), (500, 500), (250, 250), (125, 125), (62, 62)]);
    let levels: Vec<u32> = out.iter().map(|l| l.level).collect();
    assert_eq!(levels, [5, 4, 3, 2, 1]);
}
