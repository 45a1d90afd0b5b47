use screen_stream::capture::{get_machine_kind, MachineKind, Window};
use screen_stream::img::{MalformedPixelData, RgbImage};

#[test]
fn machine_kind_prefers_unix() {
    assert_eq!(get_machine_kind(true, false), Ok(MachineKind::Unix));
    assert_eq!(get_machine_kind(true, true), Ok(MachineKind::Unix));
    assert_eq!(get_machine_kind(false, true), Ok(MachineKind::Windows));
    assert_eq!(get_machine_kind(false, false), Err(()));
}

#[test]
fn window_new_keeps_what_it_is_given() {
    let window = Window::new(10, 20, 800, 600, "41943046");
    assert_eq!(window.x_pos, 10);
    assert_eq!(window.y_pos, 20);
    assert_eq!(window.width, 800);
    assert_eq!(window.height, 600);
    assert_eq!(window.id, "41943046");
    let copy = window.clone();
    assert_eq!(copy.id, window.id);
    assert_eq!(copy.width, 800);
}

#[test]
fn take_screenshot_joins_the_rows() {
    let window = Window::new(0, 0, 2, 2, "0");
    let rows = vec![vec![1u8, 2, 3, 4, 5, 6], vec![7, 8, 9, 10, 11, 12]];
    let image = window.take_screenshot(&rows).unwrap();
    assert_eq!(image.width(), 2);
    assert_eq!(image.height(), 2);
    assert_eq!(image.as_vec_u8(), vec![1u8, 2, 3, 4, 5, 6, 7, 8, 9, 10, 11, 12]);
    assert_eq!(image, RgbImage::from_rgb((1..=12).collect(), 2, 2).unwrap());
}

#[test]
fn take_screenshot_does_not_mind_how_the_rows_are_cut() {
    let window = Window::new(0, 0, 2, 2, "0");
    let rows = vec![vec![1u8, 2], vec![], vec![3, 4, 5, 6, 7, 8, 9, 10, 11], vec![12]];
    let image = window.take_screenshot(&rows).unwrap();
    assert_eq!(image, RgbImage::from_rgb((1..=12).collect(), 2, 2).unwrap());
}

#[test]
fn take_screenshot_rejects_rows_of_another_extent() {
    let window = Window::new(0, 0, 3, 2, "0");
    let rows = vec![vec![1u8, 2, 3, 4, 5, 6], vec![7, 8, 9, 10, 11, 12]];
    assert_eq!(window.take_screenshot(&rows), Err(MalformedPixelData));
}

#[test]
fn take_screenshot_rejects_rows_with_a_fourth_channel() {
    let window = Window::new(0, 0, 2, 1, "0");
    let rows = vec![vec![1u8, 2, 3, 255, 4, 5, 6, 255]];
    assert_eq!(window.take_screenshot(&rows), Err(MalformedPixelData));
}

#[test]
fn take_screenshot_of_no_rows() {
    let rows: Vec<Vec<u8>> = vec![];
    let none = Window::new(0, 0, 0, 0, "0").take_screenshot(&rows).unwrap();
    assert!(none.is_empty());
    assert!(!none.is_unset());
    assert_eq!(Window::new(0, 0, 1, 1, "0").take_screenshot(&rows), Err(MalformedPixelData));
}
