//! Laying a grid of rectangular tiles over a two-dimensional extent.

use crate::error::RushError;
use crate::partition::{
    count_partition, count_piece, covered, lemma_count_boundary_ordered,
    lemma_count_partition_covers, partition_by_count, Range,
};
use crate::pixels::{image_height, image_pixels, image_width};
use image::DynamicImage;
use vstd::prelude::*;

verus! {

/// One rectangle of the grid: a range of rows and a range of columns.
#[derive(Debug, Clone, Copy, PartialEq, Eq, Structural)]
pub struct Tile {
    /// The rows the tile spans.
    pub vertical: Range,
    /// The columns the tile spans.
    pub horizontal: Range,
}

impl Tile {
    /// Whether the pixel in row `y` and column `x` lies in the tile.
    pub open spec fn contains(self, y: int, x: int) -> bool {
        self.vertical.contains(y) && self.horizontal.contains(x)
    }

    /// Number of rows of the tile.
    pub fn height(&self) -> (n: usize)
        ensures
            n == self.vertical.spec_len(),
    {
        self.vertical.len()
    }

    /// Number of columns of the tile.
    pub fn width(&self) -> (n: usize)
        ensures
            n == self.horizontal.spec_len(),
    {
        self.horizontal.len()
    }
}

/// Whether the pixel in row `y` and column `x` lies in one of the tiles.
pub open spec fn tiled(tiles: Seq<Tile>, y: int, x: int) -> bool {
    exists|k: int| 0 <= k < tiles.len() && #[trigger] tiles[k].contains(y, x)
}

/// The tile in row `v_idx` and column `h_idx` of the grid.
pub open spec fn tile_at(
    height: nat,
    width: nat,
    n_vertical: nat,
    n_horizontal: nat,
    v_idx: nat,
    h_idx: nat,
) -> Tile {
    Tile {
        vertical: count_piece(height, n_vertical, v_idx),
        horizontal: count_piece(width, n_horizontal, h_idx),
    }
}

/// All tiles of the grid, row by row: tile `k` stands in row
/// `k / n_horizontal` and column `k % n_horizontal`.
pub open spec fn tile_plan(height: nat, width: nat, n_vertical: nat, n_horizontal: nat) -> Seq<
    Tile,
> {
    Seq::new(
        n_vertical * n_horizontal,
        |k: int|
            tile_at(
                height,
                width,
                n_vertical,
                n_horizontal,
                (k / n_horizontal as int) as nat,
                (k % n_horizontal as int) as nat,
            ),
    )
}

/// Position `v_idx * n_horizontal + h_idx` is inside the grid and splits back
/// into its row and column.
pub proof fn lemma_grid_index(n_vertical: nat, n_horizontal: nat, v_idx: nat, h_idx: nat)
    requires
        v_idx < n_vertical,
        h_idx < n_horizontal,
    ensures
        v_idx * n_horizontal + h_idx < n_vertical * n_horizontal,
        (v_idx * n_horizontal + h_idx) as int / n_horizontal as int == v_idx,
        (v_idx * n_horizontal + h_idx) as int % n_horizontal as int == h_idx,
{
    assert(v_idx * n_horizontal + h_idx < n_vertical * n_horizontal) by (nonlinear_arith)
        requires
            v_idx < n_vertical,
            h_idx < n_horizontal,
    ;
    assert(v_idx * n_horizontal == n_horizontal * v_idx) by (nonlinear_arith);
    vstd::arithmetic::div_mod::lemma_fundamental_div_mod_converse(
        (v_idx * n_horizontal + h_idx) as int,
        n_horizontal as int,
        v_idx as int,
        h_idx as int,
    );
}

/// A position inside the grid splits into a row and a column of the grid.
pub proof fn lemma_grid_position(n_vertical: nat, n_horizontal: nat, k: int)
    requires
        0 <= k < n_vertical * n_horizontal,
    ensures
        0 <= k / (n_horizontal as int) < n_vertical,
        0 <= k % (n_horizontal as int) < n_horizontal,
        k == (k / (n_horizontal as int)) * n_horizontal + k % (n_horizontal as int),
{
    assert(n_horizontal >= 1) by (nonlinear_arith)
        requires
            0 <= k < n_vertical * n_horizontal,
    ;
    vstd::arithmetic::div_mod::lemma_fundamental_div_mod(k, n_horizontal as int);
    vstd::arithmetic::div_mod::lemma_mod_bound(k, n_horizontal as int);
    let q = k / (n_horizontal as int);
    let r = k % (n_horizontal as int);
    assert(n_horizontal * q == q * n_horizontal) by (nonlinear_arith);
    assert(q < n_vertical) by (nonlinear_arith)
        requires
            q * n_horizontal <= k,
            k < n_vertical * n_horizontal,
            n_horizontal >= 1,
    ;
    assert(q >= 0) by (nonlinear_arith)
        requires
            k == q * n_horizontal + r,
            k >= 0,
            0 <= r < n_horizontal,
    ;
}

/// The tiles come row by row: the tile of row `v_idx` and column `h_idx`
/// stands at position `v_idx * n_horizontal + h_idx`.
pub proof fn lemma_tile_plan_row_major(
    height: nat,
    width: nat,
    n_vertical: nat,
    n_horizontal: nat,
    v_idx: nat,
    h_idx: nat,
)
    requires
        v_idx < n_vertical,
        h_idx < n_horizontal,
    ensures
        v_idx * n_horizontal + h_idx < tile_plan(height, width, n_vertical, n_horizontal).len(),
        tile_plan(height, width, n_vertical, n_horizontal)[(v_idx * n_horizontal + h_idx) as int]
            == tile_at(
            height,
            width,
            n_vertical,
            n_horizontal,
            v_idx,
            h_idx,
        ),
{
    lemma_grid_index(n_vertical, n_horizontal, v_idx, h_idx);
}

/// The pixels that lie in some tile of the grid are exactly the pixels of
/// the image, and no pixel lies in two tiles.
pub proof fn lemma_tile_plan_covers(height: nat, width: nat, n_vertical: nat, n_horizontal: nat)
    requires
        n_vertical >= 1,
        n_horizontal >= 1,
        height <= usize::MAX,
        width <= usize::MAX,
    ensures
        forall|y: int, x: int|
            0 <= y < height && 0 <= x < width <==> #[trigger] tiled(
                tile_plan(height, width, n_vertical, n_horizontal),
                y,
                x,
            ),
        forall|k: int, l: int, y: int, x: int|
            0 <= k < n_vertical * n_horizontal && 0 <= l < n_vertical * n_horizontal
                && #[trigger] tile_plan(height, width, n_vertical, n_horizontal)[k].contains(y, x)
                && #[trigger] tile_plan(height, width, n_vertical, n_horizontal)[l].contains(y, x)
                ==> k == l,
{
    let plan = tile_plan(height, width, n_vertical, n_horizontal);
    let rows = count_partition(height, n_vertical);
    let cols = count_partition(width, n_horizontal);
    lemma_count_partition_covers(height, n_vertical);
    lemma_count_partition_covers(width, n_horizontal);
    assert forall|y: int, x: int| 0 <= y < height && 0 <= x < width implies #[trigger] tiled(
        plan,
        y,
        x,
    ) by {
        assert(covered(rows, y));
        assert(covered(cols, x));
        let vi = choose|i: int| 0 <= i < rows.len() && (#[trigger] rows[i]).contains(y);
        let hi = choose|i: int| 0 <= i < cols.len() && (#[trigger] cols[i]).contains(x);
        lemma_grid_index(n_vertical, n_horizontal, vi as nat, hi as nat);
        let k = vi * n_horizontal + hi;
        assert(plan[k].contains(y, x));
    }
    assert forall|y: int, x: int| #[trigger] tiled(plan, y, x) implies 0 <= y < height && 0 <= x
        < width by {
        let k = choose|k: int| 0 <= k < plan.len() && #[trigger] plan[k].contains(y, x);
        lemma_grid_position(n_vertical, n_horizontal, k);
        let vi = k / n_horizontal as int;
        let hi = k % n_horizontal as int;
        assert(rows[vi].contains(y));
        assert(cols[hi].contains(x));
        assert(covered(rows, y));
        assert(covered(cols, x));
    }
    assert forall|k: int, l: int, y: int, x: int|
        0 <= k < n_vertical * n_horizontal && 0 <= l < n_vertical * n_horizontal
            && #[trigger] plan[k].contains(y, x) && #[trigger] plan[l].contains(
            y,
            x,
        ) implies k == l by {
        lemma_grid_position(n_vertical, n_horizontal, k);
        lemma_grid_position(n_vertical, n_horizontal, l);
        assert(rows[k / n_horizontal as int].contains(y));
        assert(rows[l / n_horizontal as int].contains(y));
        assert(cols[k % n_horizontal as int].contains(x));
        assert(cols[l % n_horizontal as int].contains(x));
    }
}

/// Turns down a grid that has no band of rows or no band of columns. This
/// needs no image, so it can be asked before one is read.
pub fn check_grid(n_vertical: usize, n_horizontal: usize) -> (r: Result<(), RushError>)
    ensures
        n_vertical == 0 || n_horizontal == 0 <==> r == Err::<(), RushError>(
            RushError::InvalidArgument,
        ),
        n_vertical >= 1 && n_horizontal >= 1 <==> r is Ok,
{
    if n_vertical == 0 || n_horizontal == 0 {
        Err(RushError::InvalidArgument)
    } else {
        Ok(())
    }
}

/// Plans the grid for an image of `height` rows and `width` columns cut into
/// `n_vertical` bands of rows and `n_horizontal` bands of columns. The two
/// axes are cut independently, each into near-equal ranges, and the tiles are
/// listed row by row. A count of zero on either axis is turned down.
pub fn plan_tiles(height: usize, width: usize, n_vertical: usize, n_horizontal: usize) -> (r:
    Result<Vec<Tile>, RushError>)
    ensures
        n_vertical == 0 || n_horizontal == 0 ==> r == Err::<Vec<Tile>, RushError>(
            RushError::InvalidArgument,
        ),
        n_vertical >= 1 && n_horizontal >= 1 ==> r is Ok,
        r matches Ok(tiles) ==> {
            &&& tiles@ == tile_plan(
                height as nat,
                width as nat,
                n_vertical as nat,
                n_horizontal as nat,
            )
            &&& tiles@.len() == n_vertical * n_horizontal
            &&& forall|v_idx: int, h_idx: int|
                0 <= v_idx < n_vertical && 0 <= h_idx < n_horizontal ==> #[trigger] tiles@[v_idx
                    * n_horizontal + h_idx] == tile_at(
                    height as nat,
                    width as nat,
                    n_vertical as nat,
                    n_horizontal as nat,
                    v_idx as nat,
                    h_idx as nat,
                )
        },
{
    let rows = match partition_by_count(height, n_vertical) {
        Ok(ranges) => ranges,
        Err(e) => {
            return Err(e);
        },
    };
    let cols = match partition_by_count(width, n_horizontal) {
        Ok(ranges) => ranges,
        Err(e) => {
            return Err(e);
        },
    };
    let ghost plan = tile_plan(
        height as nat,
        width as nat,
        n_vertical as nat,
        n_horizontal as nat,
    );
    let mut tiles: Vec<Tile> = Vec::new();
    let mut v_idx: usize = 0;
    while v_idx < n_vertical
        invariant
            v_idx <= n_vertical,
            n_horizontal >= 1,
            rows@ == count_partition(height as nat, n_vertical as nat),
            cols@ == count_partition(width as nat, n_horizontal as nat),
            plan == tile_plan(height as nat, width as nat, n_vertical as nat, n_horizontal as nat),
            tiles@.len() == v_idx * n_horizontal,
            forall|k: int| 0 <= k < tiles@.len() ==> #[trigger] tiles@[k] == plan[k],
        decreases n_vertical - v_idx,
    {
        let mut h_idx: usize = 0;
        while h_idx < n_horizontal
            invariant
                v_idx < n_vertical,
                h_idx <= n_horizontal,
                rows@ == count_partition(height as nat, n_vertical as nat),
                cols@ == count_partition(width as nat, n_horizontal as nat),
                plan == tile_plan(
                    height as nat,
                    width as nat,
                    n_vertical as nat,
                    n_horizontal as nat,
                ),
                tiles@.len() == v_idx * n_horizontal + h_idx,
                forall|k: int| 0 <= k < tiles@.len() ==> #[trigger] tiles@[k] == plan[k],
            decreases n_horizontal - h_idx,
        {
            proof {
                lemma_grid_index(
                    n_vertical as nat,
                    n_horizontal as nat,
                    v_idx as nat,
                    h_idx as nat,
                );
            }
            tiles.push(Tile { vertical: rows[v_idx], horizontal: cols[h_idx] });
            h_idx += 1;
        }
        proof {
            assert((v_idx + 1) * n_horizontal == v_idx * n_horizontal + n_horizontal)
                by (nonlinear_arith);
        }
        v_idx += 1;
    }
    proof {
        assert forall|v_idx: int, h_idx: int|
            0 <= v_idx < n_vertical && 0 <= h_idx < n_horizontal implies #[trigger] tiles@[v_idx
            * n_horizontal + h_idx] == tile_at(
            height as nat,
            width as nat,
            n_vertical as nat,
            n_horizontal as nat,
            v_idx as nat,
            h_idx as nat,
        ) by {
            lemma_grid_index(n_vertical as nat, n_horizontal as nat, v_idx as nat, h_idx as nat);
        }
    }
    Ok(tiles)
}

/// `piece` shows what `img` shows under `tile`: it is as wide and as high as
/// the tile, and each of its pixels is the pixel of `img` at the same place
/// counted from the tile's top left corner.
pub open spec fn is_crop(piece: DynamicImage, img: DynamicImage, tile: Tile) -> bool {
    &&& image_width(piece) == tile.horizontal.spec_len()
    &&& image_height(piece) == tile.vertical.spec_len()
    &&& forall|i: int, j: int|
        0 <= i < image_width(piece) && 0 <= j < image_height(piece) ==> #[trigger] image_pixels(
            piece,
        )[(i, j)] == image_pixels(img)[(tile.horizontal.start + i, tile.vertical.start + j)]
}

/// Where the tiles of a grid lie: inside the image, bounds in order.
pub proof fn lemma_tile_plan_bounds(
    height: nat,
    width: nat,
    n_vertical: nat,
    n_horizontal: nat,
    k: int,
)
    requires
        0 <= k < n_vertical * n_horizontal,
        height <= usize::MAX,
        width <= usize::MAX,
    ensures
        tile_plan(height, width, n_vertical, n_horizontal)[k].vertical.start <= tile_plan(
            height,
            width,
            n_vertical,
            n_horizontal,
        )[k].vertical.end <= height,
        tile_plan(height, width, n_vertical, n_horizontal)[k].horizontal.start <= tile_plan(
            height,
            width,
            n_vertical,
            n_horizontal,
        )[k].horizontal.end <= width,
{
    lemma_grid_position(n_vertical, n_horizontal, k);
    let v_idx = (k / (n_horizontal as int)) as nat;
    let h_idx = (k % (n_horizontal as int)) as nat;
    lemma_count_boundary_ordered(height, n_vertical, v_idx, v_idx + 1);
    lemma_count_boundary_ordered(width, n_horizontal, h_idx, h_idx + 1);
}

/// Cuts a decoded image into the tiles of its grid, row by row. Each tile
/// comes with the crop of the image under it. Tiles without area, which
/// a grid finer than the image has, are cropped like the others. A count of
/// zero on either axis is turned down.
pub fn emit_tiles(img: &DynamicImage, n_vertical: usize, n_horizontal: usize) -> (r: Result<
    Vec<(Tile, DynamicImage)>,
    RushError,
>)
    ensures
        n_vertical == 0 || n_horizontal == 0 ==> r is Err && r->Err_0 == RushError::InvalidArgument,
        n_vertical >= 1 && n_horizontal >= 1 ==> r is Ok,
        r matches Ok(pieces) ==> {
            &&& pieces@.len() == n_vertical * n_horizontal
            &&& forall|k: int|
                0 <= k < pieces@.len() ==> (#[trigger] pieces@[k]).0 == tile_plan(
                    image_height(*img),
                    image_width(*img),
                    n_vertical as nat,
                    n_horizontal as nat,
                )[k]
            &&& forall|k: int|
                0 <= k < pieces@.len() ==> is_crop((#[trigger] pieces@[k]).1, *img, pieces@[k].0)
        },
{
    let height = img.height();
    let width = img.width();
    let tiles = match plan_tiles(height as usize, width as usize, n_vertical, n_horizontal) {
        Ok(tiles) => tiles,
        Err(e) => {
            return Err(e);
        },
    };
    let mut pieces: Vec<(Tile, DynamicImage)> = Vec::new();
    let mut k: usize = 0;
    while k < tiles.len()
        invariant
            k <= tiles@.len(),
            height == image_height(*img),
            width == image_width(*img),
            tiles@.len() == n_vertical * n_horizontal,
            tiles@ == tile_plan(
                height as nat,
                width as nat,
                n_vertical as nat,
                n_horizontal as nat,
            ),
            pieces@.len() == k,
            forall|j: int| 0 <= j < k ==> (#[trigger] pieces@[j]).0 == tiles@[j],
            forall|j: int| 0 <= j < k ==> is_crop((#[trigger] pieces@[j]).1, *img, pieces@[j].0),
        decreases tiles@.len() - k,
    {
        let tile = tiles[k];
        proof {
            lemma_tile_plan_bounds(
                height as nat,
                width as nat,
                n_vertical as nat,
                n_horizontal as nat,
                k as int,
            );
        }
        let piece = img.crop_imm(
            tile.horizontal.start as u32,
            tile.vertical.start as u32,
            tile.horizontal.len() as u32,
            tile.vertical.len() as u32,
        );
        pieces.push((tile, piece));
        k += 1;
    }
    Ok(pieces)
}

} // verus!
