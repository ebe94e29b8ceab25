use software_rasterizer::{Pixel, Screen};

fn frame_text(screen: &Screen<f32>) -> String {
    let w = screen.pixel_width;
    let h = screen.pixel_height;
    let mut out = String::new();
    for y in (0..h).step_by(2) {
        out.push_str(&format!("\x1b[{};{}H", y / 2 + 1, 1));
        for x in 0..w {
            let top = screen.pixels[(y * w + x) as usize];
            let bottom = if y + 1 < h {
                screen.pixels[((y + 1) * w + x) as usize]
            } else {
                top
            };
            out.push_str(&format!(
                "\x1b[48;2;{};{};{}m\x1b[38;2;{};{};{}m▄",
                top.r, top.g, top.b, bottom.r, bottom.g, bottom.b
            ));
        }
        out.push_str("\x1b[0m");
    }
    out
}

#[test]
fn pixel_constructors() {
    let p = Pixel::new(3, 4, 5);
    assert_eq!((p.r, p.g, p.b), (3, 4, 5));
    assert_eq!(Pixel::black(), Pixel { r: 1, g: 1, b: 1 });
    assert_eq!(Pixel::white(), Pixel { r: 255, g: 255, b: 255 });
}

#[test]
fn new_screen_is_blank() {
    let s: Screen<f32> = Screen::new(4, 3, f32::MAX);
    assert_eq!(s.pixel_width, 4);
    assert_eq!(s.pixel_height, 3);
    assert_eq!(s.pixels.len(), 12);
    assert_eq!(s.depth.len(), 12);
    assert!(s.pixels.iter().all(|p| *p == Pixel::black()));
    assert!(s.depth.iter().all(|d| *d == f32::MAX));
}

#[test]
fn empty_screen() {
    let s: Screen<f32> = Screen::new(0, 5, f32::MAX);
    assert!(s.pixels.is_empty());
    assert!(s.depth.is_empty());
}

#[test]
fn draw_pixel_in_bounds_sets_one_cell() {
    let mut s: Screen<f32> = Screen::new(4, 3, f32::MAX);
    s.draw_pixel(2, 1, Pixel::white());
    for (i, p) in s.pixels.iter().enumerate() {
        if i == 1 * 4 + 2 {
            assert_eq!(*p, Pixel::white());
        } else {
            assert_eq!(*p, Pixel::black());
        }
    }
}

#[test]
fn draw_pixel_off_screen_changes_nothing() {
    let mut s: Screen<f32> = Screen::new(4, 3, f32::MAX);
    s.draw_pixel(4, 0, Pixel::white());
    s.draw_pixel(0, 3, Pixel::white());
    s.draw_pixel(u32::MAX, u32::MAX, Pixel::white());
    assert!(s.pixels.iter().all(|p| *p == Pixel::black()));
}

#[test]
fn distinct_positions_do_not_interfere() {
    let mut s: Screen<f32> = Screen::new(3, 3, f32::MAX);
    s.draw_pixel(0, 1, Pixel::new(10, 0, 0));
    s.draw_pixel(1, 0, Pixel::new(20, 0, 0));
    assert_eq!(s.pixels[3], Pixel::new(10, 0, 0));
    assert_eq!(s.pixels[1], Pixel::new(20, 0, 0));
}

#[test]
fn last_paint_wins() {
    let mut s: Screen<f32> = Screen::new(2, 2, f32::MAX);
    s.draw_pixel(1, 1, Pixel::new(9, 9, 9));
    s.draw_pixel(1, 1, Pixel::new(7, 8, 9));
    assert_eq!(s.pixels[3], Pixel::new(7, 8, 9));
}

#[test]
fn clear_restores_new_screen() {
    let mut s: Screen<f32> = Screen::new(3, 2, f32::MAX);
    s.draw_pixel(1, 1, Pixel::white());
    s.depth[2] = 0.5;
    s.clear(f32::MAX);
    let fresh: Screen<f32> = Screen::new(3, 2, f32::MAX);
    assert_eq!(s.pixels, fresh.pixels);
    assert_eq!(s.depth, fresh.depth);
    assert_eq!((s.pixel_width, s.pixel_height), (3, 2));
}

#[test]
fn shade_paints_grey_where_given() {
    let mut s: Screen<f32> = Screen::new(2, 1, f32::MAX);
    s.shade(&vec![Some(128), None]);
    assert_eq!(s.pixels[0], Pixel::new(128, 128, 128));
    assert_eq!(s.pixels[1], Pixel::black());
}

#[test]
fn frame_of_one_pixel() {
    let s: Screen<f32> = Screen::new(1, 1, f32::MAX);
    let bytes = s.render_frame();
    assert_eq!(
        String::from_utf8(bytes).unwrap(),
        "\x1b[1;1H\x1b[48;2;1;1;1m\x1b[38;2;1;1;1m▄\x1b[0m"
    );
}

#[test]
fn frame_pairs_rows_and_repeats_last_odd_row() {
    let mut s: Screen<f32> = Screen::new(2, 3, f32::MAX);
    s.draw_pixel(0, 0, Pixel::new(255, 0, 10));
    s.draw_pixel(1, 1, Pixel::new(0, 99, 100));
    s.draw_pixel(1, 2, Pixel::new(5, 50, 200));
    let bytes = s.render_frame();
    let text = String::from_utf8(bytes).unwrap();
    assert_eq!(text, frame_text(&s));
    assert!(text.starts_with("\x1b[1;1H\x1b[48;2;255;0;10m\x1b[38;2;1;1;1m▄"));
    assert!(text.contains("\x1b[2;1H"));
    assert!(text.ends_with("\x1b[48;2;5;50;200m\x1b[38;2;5;50;200m▄\x1b[0m"));
}

#[test]
fn frame_matches_reference_encoding() {
    let mut s: Screen<f32> = Screen::new(5, 4, f32::MAX);
    for y in 0..4u32 {
        for x in 0..5u32 {
            s.draw_pixel(x, y, Pixel::new((x * 60) as u8, (y * 70) as u8, (x + y) as u8));
        }
    }
    assert_eq!(String::from_utf8(s.render_frame()).unwrap(), frame_text(&s));
}

#[test]
fn frame_of_empty_screen_is_empty() {
    let s: Screen<f32> = Screen::new(3, 0, f32::MAX);
    assert!(s.render_frame().is_empty());
}
