use image::{DynamicImage, GenericImageView, GrayImage, Luma, Rgb, RgbImage};
use rush::error::RushError;
use rush::naming::{tile_file_name, tile_file_names};
use rush::partition::Range;
use rush::tiles::{check_grid, emit_tiles, plan_tiles, Tile};

fn tile(v: (usize, usize), h: (usize, usize)) -> Tile {
    Tile {
        vertical: Range { start: v.0, end: v.1 },
        horizontal: Range { start: h.0, end: h.1 },
    }
}

fn gradient(width: u32, height: u32) -> DynamicImage {
    DynamicImage::ImageRgb8(RgbImage::from_fn(width, height, |x, y| {
        Rgb([x as u8, y as u8, (x + y) as u8])
    }))
}

#[test]
fn plan_lists_tiles_row_by_row() {
    let tiles = plan_tiles(100, 100, 2, 2).unwrap();
    assert_eq!(
        tiles,
        vec![
            tile((0, 50), (0, 50)),
            tile((0, 50), (50, 100)),
            tile((50, 100), (0, 50)),
            tile((50, 100), (50, 100)),
        ]
    );
}

#[test]
fn plan_index_is_row_times_columns_plus_column() {
    let (height, width, n_vertical, n_horizontal) = (37usize, 53usize, 4usize, 6usize);
    let tiles = plan_tiles(height, width, n_vertical, n_horizontal).unwrap();
    let rows = rush::partition::partition_by_count(height, n_vertical).unwrap();
    let cols = rush::partition::partition_by_count(width, n_horizontal).unwrap();
    assert_eq!(tiles.len(), n_vertical * n_horizontal);
    for v_idx in 0..n_vertical {
        for h_idx in 0..n_horizontal {
            let t = tiles[v_idx * n_horizontal + h_idx];
            assert_eq!(t.vertical, rows[v_idx]);
            assert_eq!(t.horizontal, cols[h_idx]);
        }
    }
}

#[test]
fn plan_cuts_the_axes_independently() {
    let tiles = plan_tiles(10, 7, 3, 2).unwrap();
    assert_eq!(
        tiles,
        vec![
            tile((0, 4), (0, 4)),
            tile((0, 4), (4, 7)),
            tile((4, 7), (0, 4)),
            tile((4, 7), (4, 7)),
            tile((7, 10), (0, 4)),
            tile((7, 10), (4, 7)),
        ]
    );
    assert_eq!(tiles[0].height(), 4);
    assert_eq!(tiles[0].width(), 4);
    assert_eq!(tiles[5].height(), 3);
    assert_eq!(tiles[5].width(), 3);
}

#[test]
fn plan_covers_every_pixel_once() {
    let (height, width) = (13usize, 9usize);
    let tiles = plan_tiles(height, width, 5, 4).unwrap();
    let mut hits = vec![0usize; height * width];
    for t in &tiles {
        for y in t.vertical.start..t.vertical.end {
            for x in t.horizontal.start..t.horizontal.end {
                hits[y * width + x] += 1;
            }
        }
    }
    assert!(hits.iter().all(|&h| h == 1));
}

#[test]
fn plan_with_a_zero_count_is_invalid() {
    assert_eq!(plan_tiles(100, 100, 0, 2), Err(RushError::InvalidArgument));
    assert_eq!(plan_tiles(100, 100, 2, 0), Err(RushError::InvalidArgument));
    assert_eq!(plan_tiles(100, 100, 0, 0), Err(RushError::InvalidArgument));
}

#[test]
fn plan_finer_than_the_image_has_empty_tiles() {
    let tiles = plan_tiles(1, 2, 2, 3).unwrap();
    assert_eq!(
        tiles,
        vec![
            tile((0, 1), (0, 1)),
            tile((0, 1), (1, 2)),
            tile((0, 1), (2, 2)),
            tile((1, 1), (0, 1)),
            tile((1, 1), (1, 2)),
            tile((1, 1), (2, 2)),
        ]
    );
}

#[test]
fn tile_names_carry_index_and_pixel_bounds() {
    let tiles = plan_tiles(100, 100, 2, 2).unwrap();
    let names = tile_file_names("input", &tiles, "png");
    assert_eq!(
        names,
        vec![
            "input_id0_w0-50_h0-50.png",
            "input_id1_w50-100_h0-50.png",
            "input_id2_w0-50_h50-100.png",
            "input_id3_w50-100_h50-100.png",
        ]
    );
}

#[test]
fn tile_names_of_a_larger_image() {
    let tiles = plan_tiles(200, 200, 2, 2).unwrap();
    let names = tile_file_names("test2", &tiles, "png");
    assert_eq!(
        names,
        vec![
            "test2_id0_w0-100_h0-100.png",
            "test2_id1_w100-200_h0-100.png",
            "test2_id2_w0-100_h100-200.png",
            "test2_id3_w100-200_h100-200.png",
        ]
    );
}

#[test]
fn tile_name_puts_columns_under_w_and_rows_under_h() {
    let t = tile((7, 10), (120, 1234));
    assert_eq!(
        tile_file_name("photo", 17, &t, "jpeg"),
        "photo_id17_w120-1234_h7-10.jpeg"
    );
    assert_eq!(tile_file_name("", 0, &tile((0, 0), (0, 0)), ""), "_id0_w0-0_h0-0.");
}

#[test]
fn emit_crops_each_tile_from_the_image() {
    let img = gradient(7, 10);
    let pieces = emit_tiles(&img, 3, 2).unwrap();
    let plan = plan_tiles(10, 7, 3, 2).unwrap();
    assert_eq!(pieces.len(), 6);
    for (k, (t, piece)) in pieces.iter().enumerate() {
        assert_eq!(*t, plan[k]);
        assert_eq!(piece.width() as usize, t.width());
        assert_eq!(piece.height() as usize, t.height());
        for j in 0..piece.height() {
            for i in 0..piece.width() {
                assert_eq!(
                    piece.get_pixel(i, j),
                    img.get_pixel(t.horizontal.start as u32 + i, t.vertical.start as u32 + j)
                );
            }
        }
    }
    let (_, last) = &pieces[5];
    assert_eq!(last.get_pixel(0, 0), image::Rgba([4, 7, 11, 255]));
}

#[test]
fn emit_keeps_the_pixel_format() {
    let img = DynamicImage::ImageLuma8(GrayImage::from_fn(100, 100, |x, y| {
        Luma([(x / 2 + y / 2) as u8])
    }));
    let pieces = emit_tiles(&img, 2, 2).unwrap();
    assert_eq!(pieces.len(), 4);
    for (t, piece) in &pieces {
        assert_eq!(piece.color(), image::ColorType::L8);
        assert_eq!((piece.width(), piece.height()), (50, 50));
        assert_eq!(
            piece.get_pixel(49, 49),
            img.get_pixel(t.horizontal.end as u32 - 1, t.vertical.end as u32 - 1)
        );
    }
}

#[test]
fn emit_treats_empty_tiles_like_the_others() {
    let img = gradient(2, 1);
    let pieces = emit_tiles(&img, 2, 3).unwrap();
    assert_eq!(pieces.len(), 6);
    let sizes: Vec<(u32, u32)> = pieces
        .iter()
        .map(|(_, piece)| (piece.width(), piece.height()))
        .collect();
    assert_eq!(sizes, vec![(1, 1), (1, 1), (0, 1), (1, 0), (1, 0), (0, 0)]);
}

#[test]
fn emit_with_a_zero_count_is_invalid() {
    let img = gradient(4, 4);
    assert_eq!(emit_tiles(&img, 0, 2).err(), Some(RushError::InvalidArgument));
    assert_eq!(emit_tiles(&img, 2, 0).err(), Some(RushError::InvalidArgument));
}

#[test]
fn grid_needs_a_band_on_both_axes() {
    assert_eq!(check_grid(2, 3), Ok(()));
    assert_eq!(check_grid(1, 1), Ok(()));
    assert_eq!(check_grid(0, 3), Err(RushError::InvalidArgument));
    assert_eq!(check_grid(2, 0), Err(RushError::InvalidArgument));
    assert_eq!(check_grid(0, 0), Err(RushError::InvalidArgument));
}
