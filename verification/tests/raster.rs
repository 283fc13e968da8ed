use easymill::raster::{
    count_dark_pixels, flip_horizontal, flood_fill_holes, invert_image_gray, threshold_to_mask, GrayImage,
};

#[test]
fn invert_image_gray_flips_pixels() {
    let mut img = GrayImage::from_pixel(2, 1, 0);
    img.put_pixel(1, 0, 255);
    invert_image_gray(&mut img);
    assert_eq!(img.get_pixel(0, 0), 255);
    assert_eq!(img.get_pixel(1, 0), 0);
}

#[test]
fn flood_fill_holes_fills_enclosed_region() {
    let mut img = GrayImage::from_pixel(5, 5, 0);
    for x in 1..4 {
        img.put_pixel(x, 1, 255);
    }
    for x in 1..4 {
        img.put_pixel(x, 3, 255);
    }
    img.put_pixel(1, 2, 255);
    img.put_pixel(3, 2, 255);
    let filled = flood_fill_holes(&img);
    assert_eq!(filled.get_pixel(2, 2), 255, "enclosed black pixel should become white");
    assert_eq!(filled.get_pixel(0, 0), 0, "border-connected black should stay black");
}

#[test]
fn inverting_twice_restores_the_image() {
    let mut img = GrayImage::from_raw(3, 1, vec![0, 17, 200]).unwrap();
    invert_image_gray(&mut img);
    assert_eq!(img.pixels, vec![255, 238, 55]);
    invert_image_gray(&mut img);
    assert_eq!(img.pixels, vec![0, 17, 200]);
}

#[test]
fn from_raw_rejects_a_buffer_of_the_wrong_size() {
    assert!(GrayImage::from_raw(2, 2, vec![0, 0, 0]).is_none());
    let img = GrayImage::from_raw(2, 2, vec![1, 2, 3, 4]).unwrap();
    assert_eq!(img.dimensions(), (2, 2));
    assert_eq!(img.get_pixel(1, 1), 4);
}

#[test]
fn flip_horizontal_mirrors_each_row() {
    let img = GrayImage::from_raw(3, 2, vec![1, 2, 3, 4, 5, 6]).unwrap();
    let flipped = flip_horizontal(&img);
    assert_eq!(flipped.dimensions(), (3, 2));
    assert_eq!(flipped.pixels, vec![3, 2, 1, 6, 5, 4]);
}

#[test]
fn count_dark_pixels_counts_strictly_darker() {
    let img = GrayImage::from_raw(4, 1, vec![0, 127, 128, 255]).unwrap();
    assert_eq!(count_dark_pixels(&img, 128), 2);
    assert_eq!(count_dark_pixels(&img, 0), 0);
}

#[test]
fn threshold_to_mask_counts_rows_from_the_bottom() {
    // Top row bright on the left, bottom row bright on the right.
    let img = GrayImage::from_raw(2, 2, vec![200, 10, 10, 200]).unwrap();
    let (mask, material) = threshold_to_mask(&img, 128);
    assert_eq!(mask, vec![false, true, true, false]);
    assert_eq!(material, 2);
}

#[test]
fn flood_fill_keeps_border_regions_and_empty_images() {
    let img = GrayImage::from_pixel(3, 3, 0);
    let filled = flood_fill_holes(&img);
    assert_eq!(filled.pixels, vec![0; 9]);
    let empty = GrayImage::from_pixel(0, 0, 0);
    let filled_empty = flood_fill_holes(&empty);
    assert_eq!(filled_empty.dimensions(), (0, 0));
}

#[test]
fn raster_runs_alternate_direction() {
    let img = GrayImage::from_raw(4, 2, vec![0, 255, 0, 0, 0, 0, 255, 255]).unwrap();
    assert_eq!(easymill::raster::raster_runs(&img, 128), vec![(0, 0, 0), (0, 3, 2), (1, 0, 1)]);
}

#[test]
fn raster_runs_of_a_bright_picture_are_empty() {
    let img = GrayImage::from_pixel(3, 3, 200);
    assert!(easymill::raster::raster_runs(&img, 128).is_empty());
}
