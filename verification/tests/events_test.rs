use daedal::events::{
    apply_resize, blank_image, event_query, picture_fits, picture_size, receive_imgbuf,
    section_fits_picture, visible_pixels, Action, ImgSec, InputEvent, Key,
};
use daedal::options::{ImageSize, Parameters};
use daedal::raster::RgbBuffer;
use image::{Rgb, RgbImage};

fn params() -> Parameters {
    Parameters {
        size: ImageSize { x: 400, y: 300 },
        iterations: 255,
        threads: 4,
        output: "fractal.png".to_string(),
        colours: vec![[1, 2, 3], [4, 5, 6]],
    }
}

fn filled(w: u32, h: u32, c: [u8; 3]) -> RgbBuffer {
    RgbBuffer { image: RgbImage::from_pixel(w, h, Rgb(c)) }
}

#[test]
fn events_map_to_actions() {
    let cases = [
        (InputEvent::Quit, Action::Exit),
        (InputEvent::KeyDown(Some(Key::Escape)), Action::Exit),
        (InputEvent::KeyDown(Some(Key::Q)), Action::Exit),
        (InputEvent::Resized, Action::Resize),
        (InputEvent::KeyDown(Some(Key::Up)), Action::PanUp),
        (InputEvent::KeyDown(Some(Key::Down)), Action::PanDown),
        (InputEvent::KeyDown(Some(Key::Left)), Action::PanLeft),
        (InputEvent::KeyDown(Some(Key::Right)), Action::PanRight),
        (InputEvent::KeyDown(Some(Key::Equals)), Action::ZoomIn),
        (InputEvent::KeyDown(Some(Key::Minus)), Action::ZoomOut),
        (InputEvent::KeyDown(Some(Key::P)), Action::MoreIterations),
        (InputEvent::KeyDown(Some(Key::N)), Action::FewerIterations),
        (InputEvent::KeyDown(Some(Key::S)), Action::Screenshot),
        (InputEvent::KeyDown(Some(Key::Other)), Action::Ignore),
        (InputEvent::KeyDown(None), Action::Ignore),
        (InputEvent::Other, Action::Ignore),
    ];
    for (e, a) in cases {
        let mut p = params();
        let mut img = filled(400, 300, [3, 3, 3]);
        assert_eq!(event_query(&e, &mut p, &mut img, Some((8, 6))), a);
        if a == Action::Resize {
            assert_eq!(p.size, ImageSize { x: 8, y: 6 });
            assert_eq!(img.image.dimensions(), (8, 6));
            assert!(img.image.pixels().all(|q| q.0 == [0, 0, 0]));
        } else {
            assert_eq!(p.size, ImageSize { x: 400, y: 300 });
            assert_eq!(img.image.dimensions(), (400, 300));
            assert!(img.image.pixels().all(|q| q.0 == [3, 3, 3]));
        }
    }
}

#[test]
fn redraw_after_every_handled_event() {
    assert!(!Action::Ignore.needs_redraw());
    assert!(!Action::Exit.needs_redraw());
    assert!(Action::Resize.needs_redraw());
    assert!(Action::PanUp.needs_redraw());
    assert!(Action::Screenshot.needs_redraw());
    assert!(Action::MoreIterations.needs_redraw());
}

#[test]
fn p_and_n_change_iterations_and_undo_each_other() {
    let mut p = params();
    let mut img = filled(1, 1, [0, 0, 0]);
    event_query(&InputEvent::KeyDown(Some(Key::P)), &mut p, &mut img, None);
    assert_eq!(p.iterations, 510);
    event_query(&InputEvent::KeyDown(Some(Key::N)), &mut p, &mut img, None);
    assert_eq!(p.iterations, 255);
    event_query(&InputEvent::KeyDown(Some(Key::N)), &mut p, &mut img, None);
    assert_eq!(p.iterations, 0);
    event_query(&InputEvent::KeyDown(Some(Key::Up)), &mut p, &mut img, None);
    assert_eq!(p.iterations, 0);
    assert_eq!(p.size, ImageSize { x: 400, y: 300 });
}

#[test]
fn screenshot_size_round_trip() {
    let mut p = params();
    p.enlarge_for_screenshot();
    assert_eq!(p.size, ImageSize { x: 1600, y: 1200 });
    p.restore_after_screenshot();
    assert_eq!(p.size, ImageSize { x: 400, y: 300 });
    p.size = ImageSize { x: 7, y: 3 };
    p.restore_after_screenshot();
    assert_eq!(p.size, ImageSize { x: 1, y: 0 });
}

#[test]
fn resize_makes_black_picture() {
    let mut p = params();
    let mut img = filled(2, 2, [9, 9, 9]);
    apply_resize(&mut p, &mut img, 5, 3);
    assert_eq!(p.size, ImageSize { x: 5, y: 3 });
    assert_eq!(img.image.dimensions(), (5, 3));
    assert!(img.image.pixels().all(|q| q.0 == [0, 0, 0]));
    let b = blank_image(ImageSize { x: 4, y: 1 });
    assert_eq!(b.image.dimensions(), (4, 1));
    assert!(b.image.pixels().all(|q| q.0 == [0, 0, 0]));
}

#[test]
fn sections_land_at_their_offsets() {
    let mut img = filled(4, 3, [1, 1, 1]);
    let mut a = RgbImage::new(2, 2);
    a.put_pixel(0, 0, Rgb([10, 0, 0]));
    a.put_pixel(1, 0, Rgb([11, 0, 0]));
    a.put_pixel(0, 1, Rgb([12, 0, 0]));
    a.put_pixel(1, 1, Rgb([13, 0, 0]));
    let b = RgbImage::from_pixel(1, 3, Rgb([0, 20, 0]));
    let secs = vec![
        ImgSec { buf: RgbBuffer { image: a }, x: 2, y: 1 },
        ImgSec { buf: RgbBuffer { image: b }, x: 3, y: 0 },
    ];
    let n = receive_imgbuf(secs, &mut img);
    assert_eq!(n, 2);
    let g = |x: u32, y: u32| img.image.get_pixel(x, y).0;
    assert_eq!(g(0, 0), [1, 1, 1]);
    assert_eq!(g(1, 2), [1, 1, 1]);
    assert_eq!(g(2, 1), [10, 0, 0]);
    assert_eq!(g(2, 2), [12, 0, 0]);
    // the later section covers the right column
    assert_eq!(g(3, 1), [0, 20, 0]);
    assert_eq!(g(3, 2), [0, 20, 0]);
    assert_eq!(g(3, 0), [0, 20, 0]);
    assert_eq!(g(2, 0), [1, 1, 1]);
}

#[test]
fn no_sections_no_change() {
    let mut img = filled(2, 2, [5, 6, 7]);
    assert_eq!(receive_imgbuf(Vec::new(), &mut img), 0);
    assert!(img.image.pixels().all(|q| q.0 == [5, 6, 7]));
}

#[test]
fn only_lit_pixels_are_drawn_in_row_order() {
    let mut raw = RgbImage::new(3, 2);
    raw.put_pixel(2, 0, Rgb([0, 0, 1]));
    raw.put_pixel(0, 1, Rgb([5, 0, 0]));
    raw.put_pixel(1, 1, Rgb([0, 9, 0]));
    let img = RgbBuffer { image: raw };
    assert_eq!(visible_pixels(&img), vec![(2, 0, (0, 0, 1)), (0, 1, (5, 0, 0)), (1, 1, (0, 9, 0))]);
    assert_eq!(visible_pixels(&RgbBuffer { image: RgbImage::new(4, 4) }), vec![]);
}

#[test]
fn draw_coordinates_wrap_to_sixteen_bits() {
    let raw = RgbImage::from_pixel(40000, 1, Rgb([1, 1, 1]));
    let pts = visible_pixels(&RgbBuffer { image: raw });
    assert_eq!(pts.len(), 40000);
    assert_eq!(pts[32767].0, 32767);
    assert_eq!(pts[32768].0, -32768);
    assert_eq!(pts[39999].0, (39999u32 as u16) as i16);
}

#[test]
fn empty_section_anywhere_changes_nothing() {
    let mut img = filled(2, 2, [5, 6, 7]);
    let secs = vec![ImgSec { buf: RgbBuffer { image: RgbImage::new(0, 3) }, x: u32::MAX, y: 9 }];
    assert_eq!(receive_imgbuf(secs, &mut img), 1);
    assert!(img.image.pixels().all(|q| q.0 == [5, 6, 7]));
}

#[test]
fn picture_checks() {
    assert!(picture_fits(400, 300));
    assert!(picture_fits(u32::MAX, 0));
    assert!(picture_fits(0, u32::MAX));
    let big = (usize::MAX as u128) >= 3 * (u32::MAX as u128) * (u32::MAX as u128);
    assert_eq!(picture_fits(u32::MAX, u32::MAX), big);
    let img = filled(4, 3, [0, 0, 0]);
    assert_eq!(picture_size(&img), (4, 3));
    let sec = |w: u32, h: u32, x: u32, y: u32| ImgSec { buf: RgbBuffer { image: RgbImage::new(w, h) }, x, y };
    assert!(section_fits_picture(&sec(2, 2, 2, 1), &img));
    assert!(!section_fits_picture(&sec(2, 2, 3, 1), &img));
    assert!(!section_fits_picture(&sec(1, 4, 0, 0), &img));
    assert!(section_fits_picture(&sec(0, 5, u32::MAX, u32::MAX), &img));
    assert!(!section_fits_picture(&sec(1, 1, u32::MAX, 0), &img));
}
