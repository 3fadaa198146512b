//! The pyramid driver: plans the pyramid for a decoded source raster, then
//! walks the levels from finest to coarsest, resampling the working raster
//! between levels and cropping and naming every tile of every level.

use vstd::prelude::*;
use crate::TilingError;
use crate::naming::{ext_chars, level_dir_name, spec_digits, spec_tile_name, tile_file_name};
use crate::partition::{
    cell_matches, grid_count, partition, partition_matches, lemma_partition_cell_bounds,
    TileCell,
};
use crate::planning::{
    halved, plan, plan_admissible, spec_clamped_tile, PyramidPlan,
};
use crate::raster::Raster;

verus! {

/// The layout variant of the pyramid.
#[derive(Debug, Clone, Copy, PartialEq, Eq, Structural)]
pub enum Variant {
    /// Arbitrary aspect ratio; tiles named `<prefix><row>_<col>.<ext>` with
    /// the session's PNG/JPEG choice.
    Rectangular,
    /// Square source only; tiles named `x<row>_<col>.png`.
    Cube,
}

/// One tile of one level: its grid cell, its file name, and the cropped
/// raster to be encoded and written.
pub struct Tile {
    pub cell: TileCell,
    pub name: String,
    pub raster: Raster,
}

/// Everything one level of the pyramid produces: its directory name, its
/// working dimensions, and its tiles in row-major order.
pub struct LevelTiles {
    pub level: u32,
    pub dir_name: String,
    pub width: u32,
    pub height: u32,
    pub tiles: Vec<Tile>,
}

/// The tiles of one level are the full grid of the level's raster, each
/// named for its grid position and cropped to its cell's exact size.
pub open spec fn tiles_ok(
    tiles: Seq<Tile>,
    prefix: Seq<char>,
    png: bool,
    level: u32,
    w: u32,
    h: u32,
    ts: u32,
) -> bool {
    let cols = grid_count(w as nat, ts as nat) as int;
    &&& tiles.len() == grid_count(h as nat, ts as nat) * grid_count(w as nat, ts as nat)
    &&& forall|t: int|
        0 <= t < tiles.len() ==> cell_matches(
            (#[trigger] tiles[t]).cell,
            level,
            w,
            h,
            ts,
            t / cols,
            t % cols,
        )
    &&& forall|t: int|
        0 <= t < tiles.len() ==> (#[trigger] tiles[t]).name@ == spec_tile_name(
            prefix,
            tiles[t].cell.row as nat,
            tiles[t].cell.col as nat,
            ext_chars(png),
        )
    &&& forall|t: int|
        0 <= t < tiles.len() ==> (#[trigger] tiles[t]).raster.width == tiles[t].cell.width
            && tiles[t].raster.height == tiles[t].cell.height
}

/// The pyramid builder: the source raster, the plan derived from it, and
/// the session's naming configuration.
pub struct TileCreator {
    /// The decoded source image, full resolution.
    pub image: Raster,
    /// The planned tile size, base dimensions and level count.
    pub plan: PyramidPlan,
    /// Rectangular variant: write PNG instead of JPEG.
    pub png: bool,
    /// Rectangular variant: the tile file name prefix (the source's stem).
    pub prefix: String,
    /// Which layout variant this session builds.
    pub variant: Variant,
}

impl TileCreator {
    /// The prefix tile names carry: the cube variant pins it to `x`.
    pub open spec fn naming_prefix(self) -> Seq<char> {
        if self.variant is Cube {
            seq!['x']
        } else {
            self.prefix@
        }
    }

    /// Whether tiles are written as PNG: the cube variant pins it to PNG.
    pub open spec fn uses_png(self) -> bool {
        if self.variant is Cube {
            true
        } else {
            self.png
        }
    }

    /// The builder's consistency: the plan is well formed, speaks of this
    /// image's dimensions, and the cube variant holds a square image.
    pub open spec fn wf(self) -> bool {
        &&& self.plan.wf()
        &&& self.plan.base_width == self.image.width
        &&& self.plan.base_height == self.image.height
        &&& self.variant is Cube ==> self.image.width == self.image.height
    }

    /// The width the working raster has at `steps` level transitions below
    /// full resolution.
    pub open spec fn width_after(self, steps: nat) -> nat {
        halved(self.plan.base_width as nat, steps)
    }

    /// The height the working raster has at `steps` level transitions below
    /// full resolution.
    pub open spec fn height_after(self, steps: nat) -> nat {
        halved(self.plan.base_height as nat, steps)
    }

    /// What entry `idx` of the driver's output must hold: it describes
    /// level `level_count - idx`, its directory is the level number in
    /// decimal, its dimensions are the base dimensions halved `idx` times,
    /// and its tiles are the full named grid of those dimensions.
    pub open spec fn level_output_ok(self, lt: LevelTiles, idx: int) -> bool {
        &&& lt.level == self.plan.level_count - idx
        &&& lt.dir_name@ == spec_digits(lt.level as nat)
        &&& lt.width as nat == self.width_after(idx as nat)
        &&& lt.height as nat == self.height_after(idx as nat)
        &&& tiles_ok(
            lt.tiles@,
            self.naming_prefix(),
            self.uses_png(),
            lt.level,
            lt.width,
            lt.height,
            self.plan.tile_size,
        )
    }

    /// Builds a rectangular-variant tiler for a decoded raster: clamps the
    /// requested tile size, plans the level count, and keeps the naming
    /// configuration. Fails exactly on dimension/tile-size combinations the
    /// planner rejects.
    pub fn new_from_image(image: Raster, tile_size: u32, png: bool, prefix: String) -> (r:
        Result<TileCreator, TilingError>)
        ensures
            r is Ok <==> plan_admissible(
                image.width as nat,
                image.height as nat,
                tile_size as nat,
            ),
            r matches Ok(tc) ==> {
                &&& tc.wf()
                &&& tc.variant is Rectangular
                &&& tc.image == image
                &&& tc.png == png
                &&& tc.prefix@ == prefix@
                &&& tc.plan.tile_size as nat == spec_clamped_tile(
                    tile_size as nat,
                    image.width as nat,
                    image.height as nat,
                )
            },
            r matches Err(e) ==> e is PlanningError,
    {
        let p = plan(image.width, image.height, tile_size)?;
        Ok(TileCreator { image, plan: p, png, prefix, variant: Variant::Rectangular })
    }

    /// Builds a cube-variant tiler: rejects a non-square source before
    /// anything else, then plans as the rectangular variant does; tiles are
    /// always PNG and carry the fixed `x` prefix.
    pub fn new_cube_from_image(image: Raster, tile_size: u32) -> (r: Result<
        TileCreator,
        TilingError,
    >)
        ensures
            r is Ok <==> (image.width == image.height && plan_admissible(
                image.width as nat,
                image.height as nat,
                tile_size as nat,
            )),
            r matches Ok(tc) ==> {
                &&& tc.wf()
                &&& tc.variant is Cube
                &&& tc.image == image
                &&& tc.plan.tile_size as nat == spec_clamped_tile(
                    tile_size as nat,
                    image.width as nat,
                    image.height as nat,
                )
            },
            r matches Err(e) ==> {
                &&& image.width != image.height ==> e is UnsupportedSourceImage
                &&& image.width == image.height ==> e is PlanningError
            },
    {
        if image.width != image.height {
            return Err(
                TilingError::UnsupportedSourceImage(
                    String::from_str("the cube layout needs a square source image"),
                ),
            );
        }
        let p = plan(image.width, image.height, tile_size)?;
        Ok(
            TileCreator {
                image,
                plan: p,
                png: true,
                prefix: String::new(),
                variant: Variant::Cube,
            },
        )
    }

    /// Builds every tile of every level, finest (level `level_count`, the
    /// source raster itself) down to coarsest (level 1). Between levels the
    /// working raster is resampled to the dimensions obtained by halving
    /// the previous ones. Each level's entry carries its directory name and
    /// its full grid of cropped, named tiles.
    pub fn create_tiles(self) -> (r: Vec<LevelTiles>)
        requires
            self.wf(),
        ensures
            r@.len() == self.plan.level_count,
            forall|idx: int| 0 <= idx < r@.len() ==> self.level_output_ok(#[trigger] r@[idx], idx),
    {
        let ghost orig = self;
        let TileCreator { image, plan: pl, png, prefix, variant } = self;
        let levels = pl.level_count;
        let ts = pl.tile_size;
        let is_cube = match variant {
            Variant::Cube => true,
            Variant::Rectangular => false,
        };
        let nm_prefix: &str = if is_cube {
            "x"
        } else {
            prefix.as_str()
        };
        let use_png = if is_cube {
            true
        } else {
            png
        };
        proof {
            reveal_strlit("x");
            assert(("x")@ =~= seq!['x']);
            assert(nm_prefix@ == orig.naming_prefix());
        }
        let mut out: Vec<LevelTiles> = Vec::new();
        let mut cw: u32 = pl.base_width;
        let mut ch: u32 = pl.base_height;
        let mut cur: Raster = image;
        let mut idx: u32 = 0;
        while idx < levels
            invariant
                orig.wf(),
                levels == orig.plan.level_count,
                ts == orig.plan.tile_size,
                1 <= ts,
                nm_prefix@ == orig.naming_prefix(),
                use_png == orig.uses_png(),
                idx <= levels,
                out@.len() == idx,
                forall|i: int| 0 <= i < out@.len() ==> orig.level_output_ok(#[trigger] out@[i], i),
                idx < levels ==> cw as nat == orig.width_after(idx as nat) && ch as nat
                    == orig.height_after(idx as nat),
                idx < levels && cw >= 1 && ch >= 1 ==> cur.width == cw && cur.height == ch,
            decreases levels - idx,
        {
            let level = levels - idx;
            let dir_name = level_dir_name(level);
            let cells = partition(level, cw, ch, ts);
            proof {
                if cells@.len() >= 1 {
                    lemma_partition_cell_bounds(cells@, level, cw, ch, ts, 0);
                }
            }
            let mut tiles: Vec<Tile> = Vec::new();
            let mut t: usize = 0;
            while t < cells.len()
                invariant
                    1 <= ts,
                    partition_matches(cells@, level, cw, ch, ts),
                    cells@.len() >= 1 ==> cur.width == cw && cur.height == ch,
                    t <= cells@.len(),
                    tiles@.len() == t,
                    nm_prefix@ == orig.naming_prefix(),
                    use_png == orig.uses_png(),
                    forall|u: int|
                        0 <= u < tiles@.len() ==> (#[trigger] tiles@[u]).cell == cells@[u],
                    forall|u: int|
                        0 <= u < tiles@.len() ==> (#[trigger] tiles@[u]).name@ == spec_tile_name(
                            orig.naming_prefix(),
                            tiles@[u].cell.row as nat,
                            tiles@[u].cell.col as nat,
                            ext_chars(orig.uses_png()),
                        ),
                    forall|u: int|
                        0 <= u < tiles@.len() ==> (#[trigger] tiles@[u]).raster.width
                            == tiles@[u].cell.width && tiles@[u].raster.height
                            == tiles@[u].cell.height,
                decreases cells@.len() - t,
            {
                let cell = cells[t];
                proof {
                    lemma_partition_cell_bounds(cells@, level, cw, ch, ts, t as int);
                }
                let name = tile_file_name(nm_prefix, cell.row, cell.col, use_png);
                let cropped = cur.crop(cell.left, cell.upper, cell.width, cell.height);
                tiles.push(Tile { cell, name, raster: cropped });
                t = t + 1;
            }
            out.push(LevelTiles { level, dir_name, width: cw, height: ch, tiles });
            proof {
                let i = out@.len() - 1;
                assert(out@[i].tiles@.len() == cells@.len());
                assert(orig.level_output_ok(out@[i], i));
            }
            idx = idx + 1;
            if idx < levels {
                cw = cw / 2;
                ch = ch / 2;
                proof {
                    assert(halved(orig.plan.base_width as nat, idx as nat) == halved(
                        orig.plan.base_width as nat,
                        (idx - 1) as nat,
                    ) / 2);
                    assert(halved(orig.plan.base_height as nat, idx as nat) == halved(
                        orig.plan.base_height as nat,
                        (idx - 1) as nat,
                    ) / 2);
                }
                if cw >= 1 && ch >= 1 {
                    cur = cur.resample(cw, ch);
                }
            }
        }
        out
    }
}

} // verus!
