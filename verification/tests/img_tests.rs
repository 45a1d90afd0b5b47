use screen_stream::img::{MalformedPixelData, RgbImage};

fn two_by_two() -> Vec<u8> {
    vec![1, 2, 3, 4, 5, 6, 7, 8, 9, 10, 11, 12]
}

#[test]
fn from_rgb_groups_subpixels_in_threes() {
    let image = RgbImage::from_rgb(two_by_two(), 2, 2).unwrap();
    assert_eq!(image.width(), 2);
    assert_eq!(image.height(), 2);
    assert_eq!(image.data(), &vec![[1u8, 2, 3], [4, 5, 6], [7, 8, 9], [10, 11, 12]]);
    assert!(!image.is_empty());
    assert!(!image.is_unset());
}

#[test]
fn from_rgb_takes_width_before_height() {
    let image = RgbImage::from_rgb(vec![0; 18], 3, 2).unwrap();
    assert_eq!(image.width(), 3);
    assert_eq!(image.height(), 2);
    assert_eq!(image.data().len(), 6);
}

#[test]
fn from_pixels_takes_height_before_width() {
    let image = RgbImage::from_pixels(vec![[9u8, 8, 7]; 6], 2, 3).unwrap();
    assert_eq!(image.height(), 2);
    assert_eq!(image.width(), 3);
    assert_eq!(image.data(), &vec![[9u8, 8, 7]; 6]);
}

#[test]
fn as_vec_u8_writes_pixels_in_order() {
    let image = RgbImage::from_pixels(vec![[1u8, 2, 3], [250, 251, 252]], 1, 2).unwrap();
    assert_eq!(image.as_vec_u8(), vec![1u8, 2, 3, 250, 251, 252]);
}

#[test]
fn round_trip_gives_the_same_raster() {
    let image = RgbImage::from_rgb(two_by_two(), 2, 2).unwrap();
    let again = RgbImage::from_rgb(image.as_vec_u8(), image.width(), image.height()).unwrap();
    assert_eq!(again, image);
    assert_eq!(again.as_vec_u8(), two_by_two());
}

#[test]
fn round_trip_of_a_single_row_and_a_single_column() {
    let row = RgbImage::from_rgb(two_by_two(), 4, 1).unwrap();
    assert_eq!(RgbImage::from_rgb(row.as_vec_u8(), row.width(), row.height()).unwrap(), row);
    let column = RgbImage::from_rgb(two_by_two(), 1, 4).unwrap();
    assert_eq!(
        RgbImage::from_rgb(column.as_vec_u8(), column.width(), column.height()).unwrap(),
        column
    );
    assert_ne!(row, column);
}

#[test]
fn rejects_bytes_not_in_threes() {
    assert_eq!(RgbImage::from_rgb(vec![1, 2, 3, 4], 1, 1), Err(MalformedPixelData));
    assert_eq!(RgbImage::from_rgb(vec![1, 2], 1, 1), Err(MalformedPixelData));
    assert_eq!(RgbImage::from_rgb(vec![1], 0, 0), Err(MalformedPixelData));
    assert_eq!(RgbImage::from_rgb(vec![0; 13], 2, 2), Err(MalformedPixelData));
}

#[test]
fn rejects_pixels_that_do_not_fill_the_extent() {
    assert_eq!(RgbImage::from_rgb(two_by_two(), 2, 3), Err(MalformedPixelData));
    assert_eq!(RgbImage::from_rgb(two_by_two(), 3, 1), Err(MalformedPixelData));
    assert_eq!(RgbImage::from_rgb(two_by_two(), 0, 0), Err(MalformedPixelData));
    assert_eq!(RgbImage::from_rgb(vec![], 1, 1), Err(MalformedPixelData));
    assert_eq!(RgbImage::from_pixels(vec![[0u8; 3]; 5], 2, 2), Err(MalformedPixelData));
    assert_eq!(RgbImage::from_pixels(vec![[0u8; 3]; 3], 2, 2), Err(MalformedPixelData));
}

#[test]
fn does_not_cut_off_what_is_too_much() {
    let mut bytes = two_by_two();
    bytes.extend_from_slice(&[13, 14, 15]);
    assert_eq!(RgbImage::from_rgb(bytes, 2, 2), Err(MalformedPixelData));
}

#[test]
fn extent_is_not_taken_modulo_the_machine_word() {
    assert_eq!(RgbImage::from_pixels(vec![], 65536, 65536), Err(MalformedPixelData));
    assert_eq!(RgbImage::from_rgb(vec![], 65536, 65536), Err(MalformedPixelData));
    assert_eq!(
        RgbImage::from_pixels(vec![[0u8; 3]], 4294967295, 4294967295),
        Err(MalformedPixelData)
    );
}

#[test]
fn new_is_the_unset_value() {
    let image = RgbImage::new();
    assert!(image.is_unset());
    assert!(image.is_empty());
    assert_eq!(image.width(), 0);
    assert_eq!(image.height(), 0);
    assert!(image.data().is_empty());
    assert!(image.as_vec_u8().is_empty());
}

#[test]
fn a_capture_of_no_extent_is_not_the_unset_value() {
    let capture = RgbImage::from_rgb(vec![], 0, 0).unwrap();
    assert!(capture.is_empty());
    assert!(!capture.is_unset());
    assert_ne!(capture, RgbImage::new());
    let flat = RgbImage::from_rgb(vec![], 0, 7).unwrap();
    assert!(flat.is_empty());
    assert_eq!(flat.width(), 0);
    assert_eq!(flat.height(), 7);
}

#[test]
fn the_unset_value_reads_back_as_a_capture() {
    let unset = RgbImage::new();
    let back = RgbImage::from_rgb(unset.as_vec_u8(), unset.width(), unset.height()).unwrap();
    assert!(!back.is_unset());
    assert_ne!(back, unset);
}

#[test]
fn clone_is_the_same_raster() {
    let image = RgbImage::from_rgb(two_by_two(), 2, 2).unwrap();
    assert_eq!(image.clone(), image);
    assert_eq!(RgbImage::new().clone(), RgbImage::new());
}
