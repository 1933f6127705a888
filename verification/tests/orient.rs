use image::{DynamicImage, GenericImageView, Rgb, RgbImage};
use rush::orient::{is_landscape, is_portrait, to_landscape, to_portrait};

fn gradient(width: u32, height: u32) -> DynamicImage {
    DynamicImage::ImageRgb8(RgbImage::from_fn(width, height, |x, y| {
        Rgb([x as u8, y as u8, (3 * x + 5 * y) as u8])
    }))
}

fn assert_quarter_turn(turned: &DynamicImage, img: &DynamicImage) {
    assert_eq!(turned.width(), img.height());
    assert_eq!(turned.height(), img.width());
    for j in 0..turned.height() {
        for i in 0..turned.width() {
            assert_eq!(turned.get_pixel(i, j), img.get_pixel(j, img.height() - 1 - i));
        }
    }
}

#[test]
fn orientation_by_width_and_height() {
    assert!(is_portrait(50, 100));
    assert!(!is_portrait(100, 50));
    assert!(!is_portrait(70, 70));
    assert!(is_landscape(100, 50));
    assert!(!is_landscape(50, 100));
    assert!(!is_landscape(70, 70));
}

#[test]
fn standing_image_is_laid_down() {
    let img = gradient(5, 8);
    let out = to_landscape(img.clone());
    assert_eq!((out.width(), out.height()), (8, 5));
    assert_quarter_turn(&out, &img);
    assert_eq!(out.get_pixel(0, 0), img.get_pixel(0, 7));
    assert_eq!(out.get_pixel(7, 4), img.get_pixel(4, 0));
}

#[test]
fn lying_image_stays_as_it_is_for_landscape() {
    let img = gradient(8, 5);
    assert_eq!(to_landscape(img.clone()), img);
    let square = gradient(6, 6);
    assert_eq!(to_landscape(square.clone()), square);
}

#[test]
fn lying_image_is_stood_up() {
    let img = gradient(100, 50);
    let out = to_portrait(img.clone());
    assert_eq!((out.width(), out.height()), (50, 100));
    assert_quarter_turn(&out, &img);
}

#[test]
fn standing_image_stays_as_it_is_for_portrait() {
    let img = gradient(100, 200);
    assert_eq!(to_portrait(img.clone()), img);
    let square = gradient(3, 3);
    assert_eq!(to_portrait(square.clone()), square);
}
