use tracy::image::{scanline_row, Image, Rgb};

#[test]
fn new_image_is_black() {
    let img = Image::new(3, 2);
    assert_eq!(img.width(), 3);
    assert_eq!(img.height(), 2);
    assert_eq!(img.as_slice().len(), 6);
    for y in 0..2 {
        for x in 0..3 {
            assert_eq!(img.get(x, y), Rgb::new(0, 0, 0));
        }
    }
}

#[test]
fn set_changes_only_that_pixel() {
    let mut img = Image::new(3, 2);
    img.set(2, 1, Rgb::new(10, 20, 30));
    assert_eq!(img.get(2, 1), Rgb::new(10, 20, 30));
    assert_eq!(img.as_slice()[5], Rgb::new(10, 20, 30));
    assert_eq!(img.get(1, 1), Rgb::new(0, 0, 0));
    assert_eq!(img.get(2, 0), Rgb::new(0, 0, 0));
}

#[test]
fn set_twice_keeps_last_color() {
    let mut img = Image::new(1, 1);
    img.set(0, 0, Rgb::new(1, 1, 1));
    img.set(0, 0, Rgb::new(2, 2, 2));
    assert_eq!(img.get(0, 0), Rgb::new(2, 2, 2));
}

#[test]
fn rgba_is_fully_opaque() {
    assert_eq!(Rgb::new(12, 34, 56).to_rgba(), [12, 34, 56, 255]);
}

#[test]
fn bottom_scanline_is_last_row() {
    assert_eq!(scanline_row(225, 0), 224);
    assert_eq!(scanline_row(225, 224), 0);
    assert_eq!(scanline_row(1, 0), 0);
}
