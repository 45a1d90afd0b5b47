use screen_stream::diff::{
    average_color, calc_diff, DiffScore, EmptyBufferError, DIFF_TOTAL, PARTS_PER_UNIT, TOTAL_PARTS,
};
use screen_stream::img::RgbImage;

fn uniform(pixel: [u8; 3], width: u32, height: u32) -> RgbImage {
    RgbImage::from_pixels(vec![pixel; (width * height) as usize], height, width).unwrap()
}

fn units(score: DiffScore) -> f64 {
    score.parts() as f64 / PARTS_PER_UNIT as f64
}

#[test]
fn constants_agree() {
    assert_eq!(DIFF_TOTAL, 100);
    assert_eq!(PARTS_PER_UNIT, 3 * 255);
    assert_eq!(TOTAL_PARTS, DIFF_TOTAL * PARTS_PER_UNIT);
}

#[test]
fn average_color_averages_each_channel_by_itself() {
    let pixels = vec![[0u8, 10, 255], [4, 20, 255], [8, 60, 255]];
    assert_eq!(average_color(&pixels), Ok([4, 30, 255]));
}

#[test]
fn average_color_rounds_down() {
    let pixels = vec![[1u8, 2, 3], [2, 3, 5]];
    assert_eq!(average_color(&pixels), Ok([1, 2, 4]));
    let pixels = vec![[0u8, 0, 1], [0, 1, 1], [1, 1, 1]];
    assert_eq!(average_color(&pixels), Ok([0, 0, 1]));
}

#[test]
fn average_color_of_one_pixel_is_the_pixel() {
    assert_eq!(average_color(&vec![[7u8, 0, 255]]), Ok([7, 0, 255]));
}

#[test]
fn average_color_of_nothing_fails() {
    assert_eq!(average_color(&vec![]), Err(EmptyBufferError));
}

#[test]
fn average_color_of_many_bright_pixels() {
    let pixels = vec![[255u8, 254, 253]; 100_000];
    assert_eq!(average_color(&pixels), Ok([255, 254, 253]));
}

#[test]
fn score_of_a_raster_against_itself_is_nothing() {
    let image = RgbImage::from_rgb(vec![1, 2, 3, 4, 5, 6, 7, 8, 9, 10, 11, 12], 2, 2).unwrap();
    let score = calc_diff(&image, &image).unwrap();
    assert!(score.is_zero());
    assert_eq!(score, DiffScore::zero());
    assert_eq!(score.parts(), 0);
}

#[test]
fn score_is_symmetric() {
    let a = RgbImage::from_rgb(vec![10, 200, 30, 40, 50, 60], 2, 1).unwrap();
    let b = RgbImage::from_rgb(vec![0, 0, 90, 255, 1, 2], 2, 1).unwrap();
    assert_eq!(calc_diff(&a, &b), calc_diff(&b, &a));
    assert!(!calc_diff(&a, &b).unwrap().is_zero());
}

#[test]
fn score_lies_between_nothing_and_total() {
    let samples: Vec<[u8; 3]> =
        vec![[0, 0, 0], [255, 255, 255], [255, 0, 0], [0, 128, 7], [1, 1, 1], [254, 255, 0]];
    for p in samples.iter() {
        for q in samples.iter() {
            let score = calc_diff(&uniform(*p, 2, 2), &uniform(*q, 2, 2)).unwrap();
            assert!(score.parts() <= TOTAL_PARTS);
            assert!(DiffScore::total().at_least(&score));
            assert!(score.at_least(&DiffScore::zero()));
        }
    }
}

#[test]
fn black_against_white_scores_the_total() {
    let black = uniform([0, 0, 0], 2, 2);
    let white = uniform([255, 255, 255], 2, 2);
    let score = calc_diff(&black, &white).unwrap();
    assert_eq!(score, DiffScore::total());
    assert_eq!(score.parts(), 76500);
    assert_eq!(units(score), 100.0);
}

#[test]
fn one_channel_gives_a_third_of_the_total_at_most() {
    let black = uniform([0, 0, 0], 1, 1);
    let red = uniform([255, 0, 0], 1, 1);
    let score = calc_diff(&black, &red).unwrap();
    assert_eq!(score.parts(), 25500);
    assert_eq!(3 * score.parts(), TOTAL_PARTS);
}

#[test]
fn score_adds_the_distances_of_the_channel_averages() {
    let a = RgbImage::from_pixels(vec![[10u8, 20, 30], [10, 20, 30]], 1, 2).unwrap();
    let b = RgbImage::from_pixels(vec![[12u8, 20, 20], [14, 20, 30]], 1, 2).unwrap();
    // averages (10, 20, 30) and (13, 20, 25): distances 3, 0 and 5
    let score = calc_diff(&a, &b).unwrap();
    assert_eq!(score.parts(), 800);
    assert!((units(score) - 8.0 * 100.0 / 765.0).abs() < 1e-9);
}

#[test]
fn rasters_with_the_same_average_score_nothing() {
    let a = RgbImage::from_pixels(vec![[0u8, 0, 0], [200, 100, 50]], 1, 2).unwrap();
    let b = RgbImage::from_pixels(vec![[100u8, 50, 25], [100, 50, 25]], 1, 2).unwrap();
    assert_ne!(a, b);
    assert!(calc_diff(&a, &b).unwrap().is_zero());
}

#[test]
fn score_of_rasters_without_pixels_fails() {
    let none = RgbImage::new();
    assert_eq!(calc_diff(&none, &none), Err(EmptyBufferError));
    let flat = RgbImage::from_rgb(vec![], 0, 3).unwrap();
    assert_eq!(calc_diff(&flat, &none), Err(EmptyBufferError));
}

#[test]
fn scores_from_units_and_parts() {
    assert_eq!(DiffScore::from_units(10).unwrap().parts(), 7650);
    assert_eq!(DiffScore::from_units(0), Some(DiffScore::zero()));
    assert_eq!(DiffScore::from_units(100), Some(DiffScore::total()));
    assert_eq!(DiffScore::from_units(101), None);
    assert_eq!(DiffScore::from_units(u32::MAX), None);
    assert_eq!(DiffScore::from_parts(76500), Some(DiffScore::total()));
    assert_eq!(DiffScore::from_parts(76501), None);
    assert_eq!(DiffScore::from_parts(1).unwrap().parts(), 1);
}

#[test]
fn scores_compare_by_their_parts() {
    let low = DiffScore::from_parts(7649).unwrap();
    let ten = DiffScore::from_units(10).unwrap();
    assert!(ten.at_least(&low));
    assert!(!low.at_least(&ten));
    assert!(ten.at_least(&ten));
    assert!(!ten.is_zero());
    assert!(DiffScore::zero().is_zero());
}
