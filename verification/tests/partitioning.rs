use image2multires::partition::{partition, TileCell};

fn cell(
    level: u32,
    row: u32,
    col: u32,
    left: u32,
    upper: u32,
    width: u32,
    height: u32,
) -> TileCell {
    TileCell { level, row, col, left, upper, width, height }
}

#[test]
fn partition_exact_grid() {
    let cells = partition(2, 1024, 1024, 512);
    assert_eq!(cells.len(), 4);
    assert_eq!(cells[0], cell(2, 0, 0, 0, 0, 512, 512));
    assert_eq!(cells[1], cell(2, 0, 1, 512, 0, 512, 512));
    assert_eq!(cells[2], cell(2, 1, 0, 0, 512, 512, 512));
    assert_eq!(cells[3], cell(2, 1, 1, 512, 512, 512, 512));
}

#[test]
fn partition_clamps_right_and_bottom() {
    let cells = partition(1, 1000, 600, 512);
    assert_eq!(cells.len(), 4);
    assert_eq!(cells[0], cell(1, 0, 0, 0, 0, 512, 512));
    assert_eq!(cells[1], cell(1, 0, 1, 512, 0, 488, 512));
    assert_eq!(cells[2], cell(1, 1, 0, 0, 512, 512, 88));
    assert_eq!(cells[3], cell(1, 1, 1, 512, 512, 488, 88));
}

#[test]
fn partition_single_small_level() {
    let cells = partition(1, 100, 50, 512);
    assert_eq!(cells.len(), 1);
    assert_eq!(cells[0], cell(1, 0, 0, 0, 0, 100, 50));
}

#[test]
fn partition_empty_dimension() {
    let cells = partition(1, 0, 50, 7);
    assert!(cells.is_empty());
}

#[test]
fn partition_covers_every_pixel_once() {
    // Concrete check of the coverage property: each pixel of a 70 x 30
    // level with tile size 32 falls in exactly one cell.
    let w: u32 = 70;
    let h: u32 = 30;
    let cells = partition(3, w, h, 32);
    for y in 0..h {
        for x in 0..w {
            let n = cells
                .iter()
                .filter(|c| {
                    c.left <= x && x < c.left + c.width && c.upper <= y && y < c.upper + c.height
                })
                .count();
            assert_eq!(n, 1, "pixel ({x}, {y}) covered {n} times");
        }
    }
}

#[test]
fn partition_edge_cells_shorter_iff_remainder() {
    let cells = partition(1, 70, 64, 32);
    for c in cells.iter() {
        // 70 % 32 != 0: the last column is narrower, all others full.
        assert_eq!(c.width < 32, c.col == 2);
        // 64 % 32 == 0: every row has the full height.
        assert_eq!(c.height, 32);
    }
}
