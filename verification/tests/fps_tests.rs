use yawc::fps_counter::{clip_damage, digit_texture_src, display_digits, fps_digit_count, intersect_rects, Fps, FpsElement, Rect};
use yawc::fps_texture::fps_texture_pixels;

#[test]
fn digit_counts_and_digits() {
    assert_eq!(fps_digit_count(0), 1);
    assert_eq!(fps_digit_count(9), 1);
    assert_eq!(fps_digit_count(10), 2);
    assert_eq!(fps_digit_count(99), 2);
    assert_eq!(fps_digit_count(100), 3);
    assert_eq!(fps_digit_count(5000), 3);
    assert_eq!(display_digits(0), vec![0]);
    assert_eq!(display_digits(7), vec![7]);
    assert_eq!(display_digits(60), vec![6, 0]);
    assert_eq!(display_digits(144), vec![1, 4, 4]);
    assert_eq!(display_digits(1000), vec![9, 9, 9]);
    for v in [0u32, 5, 42, 99, 100, 999, 1000, 123456] {
        let expected: Vec<u32> = std::cmp::min(v, 999).to_string().chars().map(|d| d.to_digit(10).unwrap()).collect();
        assert_eq!(display_digits(v), expected);
        assert_eq!(display_digits(v).len() as i32, fps_digit_count(v));
    }
}

#[test]
fn glyphs() {
    assert_eq!(digit_texture_src(9), (0, 0, 22, 35));
    assert_eq!(digit_texture_src(1), (66, 0, 22, 35));
    assert_eq!(digit_texture_src(0), (22, 35, 22, 35));
    assert_eq!(digit_texture_src(5), (44, 70, 22, 35));
}

#[test]
fn element_commits_only_on_change() {
    let mut e = FpsElement::new("texture");
    assert_eq!(e.value(), 0);
    assert_eq!(e.current_commit(), 0);
    assert_eq!(e.src_size(), (24, 35));
    e.update_fps(0);
    assert_eq!(e.current_commit(), 0);
    e.update_fps(60);
    assert_eq!(e.current_commit(), 1);
    e.update_fps(60);
    assert_eq!(e.current_commit(), 1);
    assert_eq!(e.src_size(), (48, 35));
    assert_eq!(e.digits(), vec![6, 0]);
    e.update_fps(144);
    assert_eq!(e.current_commit(), 2);
    assert_eq!(e.src_size(), (72, 35));
    assert_eq!(*e.texture(), "texture");
}

#[test]
fn window_keeps_latest_frames() {
    let mut f = Fps::with_window_len(3);
    assert_eq!(f.frame_count(), 0);
    assert_eq!(f.slowest_frame(), None);
    assert_eq!(f.fastest_frame(), None);
    for t in [10u128, 50, 20, 5] {
        f.push_frame_time(t);
    }
    assert_eq!(f.frame_count(), 3);
    assert_eq!((f.frame_time(0), f.frame_time(1), f.frame_time(2)), (50, 20, 5));
    assert_eq!(f.slowest_frame(), Some(50));
    assert_eq!(f.fastest_frame(), Some(5));
    f.push_frame_time(1);
    assert_eq!(f.slowest_frame(), Some(20));
    assert_eq!(f.fastest_frame(), Some(1));
}

#[test]
fn single_frame_window_and_ticks() {
    let mut f = Fps::with_window_len(1);
    f.push_frame_time(7);
    f.push_frame_time(9);
    assert_eq!(f.frame_count(), 1);
    assert_eq!(f.frame_time(0), 9);
    f.tick();
    f.tick();
    assert_eq!(f.frame_count(), 1);
    let mut d = Fps::default();
    for _ in 0..(Fps::DEFAULT_WINDOW_LEN + 5) {
        d.tick();
    }
    assert_eq!(d.frame_count(), Fps::DEFAULT_WINDOW_LEN);
}

#[test]
fn glyphs_are_distinct_and_inside_the_atlas() {
    let rects: Vec<_> = (0..10).map(digit_texture_src).collect();
    for (i, a) in rects.iter().enumerate() {
        assert!(a.0 >= 0 && a.0 + a.2 <= 88 && a.1 >= 0 && a.1 + a.3 <= 105);
        for b in rects.iter().skip(i + 1) {
            assert_ne!((a.0, a.1), (b.0, b.1));
        }
    }
}

fn rect(x: i32, y: i32, w: i32, h: i32) -> Rect {
    Rect { x, y, w, h }
}

#[test]
fn rectangle_intersections() {
    assert_eq!(intersect_rects(rect(0, 0, 10, 10), rect(5, 5, 10, 10)), Some(rect(5, 5, 5, 5)));
    assert_eq!(intersect_rects(rect(0, 0, 10, 10), rect(10, 0, 5, 5)), None);
    assert_eq!(intersect_rects(rect(0, 0, 10, 10), rect(2, 3, 4, 5)), Some(rect(2, 3, 4, 5)));
    assert_eq!(intersect_rects(rect(-5, -5, 10, 10), rect(0, 0, 3, 3)), Some(rect(0, 0, 3, 3)));
    assert_eq!(intersect_rects(rect(0, 0, 0, 10), rect(0, 0, 10, 10)), None);
    assert_eq!(intersect_rects(rect(i32::MAX - 1, 0, 10, 10), rect(i32::MAX - 5, 0, 10, 10)), Some(rect(i32::MAX - 1, 0, 1, 10)));
}

#[test]
fn damage_clipped_to_a_glyph() {
    let dst = rect(100, 50, 22, 35);
    let damage = vec![rect(0, 0, 110, 60), rect(200, 0, 10, 10), rect(110, 60, 100, 100), rect(100, 50, 22, 35)];
    assert_eq!(
        clip_damage(&damage, dst),
        vec![rect(0, 0, 10, 10), rect(10, 10, 12, 25), rect(0, 0, 22, 35)]
    );
    assert_eq!(clip_damage(&vec![], dst), vec![]);
    for r in clip_damage(&damage, dst) {
        assert!(r.x >= 0 && r.y >= 0 && r.x + r.w <= dst.w && r.y + r.h <= dst.h);
    }
}

#[test]
fn window_over_many_ticks() {
    let mut f = Fps::with_window_len(4);
    let frames = [3u128, 9, 4, 7, 1, 8];
    for (k, t) in frames.iter().enumerate() {
        f.push_frame_time(*t);
        let expected: Vec<u128> = frames[..=k].iter().rev().take(4).rev().cloned().collect();
        let got: Vec<u128> = (0..f.frame_count()).map(|i| f.frame_time(i)).collect();
        assert_eq!(got, expected);
        assert_eq!(f.frame_count(), std::cmp::min(k + 1, 4));
    }
    let slow = f.slowest_frame().unwrap();
    let fast = f.fastest_frame().unwrap();
    let total: u128 = (0..f.frame_count()).map(|i| f.frame_time(i)).sum();
    assert!(fast * 4 <= total && total <= slow * 4);
    assert_eq!((fast, slow, total), (1, 8, 20));
    let g = f.clone();
    assert_eq!(g.frame_count(), 4);
    assert_eq!(g.frame_time(3), 8);
}

#[test]
fn ticks_record_elapsed_time() {
    let mut f = Fps::with_window_len(2);
    let start = std::time::Instant::now();
    while start.elapsed() < std::time::Duration::from_millis(5) {}
    f.tick();
    assert!(f.frame_time(0) >= 5_000_000);
}

fn tiny_png() -> Vec<u8> {
    let mut bytes = Vec::new();
    {
        let mut enc = png::Encoder::new(&mut bytes, 2, 1);
        enc.set_color(png::ColorType::Rgba);
        enc.set_depth(png::BitDepth::Eight);
        let mut w = enc.write_header().unwrap();
        w.write_image_data(&[1, 2, 3, 4, 5, 6, 7, 8]).unwrap();
    }
    bytes
}

#[test]
fn atlas_pixels_decode() {
    let (px, w, h) = fps_texture_pixels(&tiny_png()).unwrap();
    assert_eq!((w, h), (2, 1));
    assert_eq!(px, vec![1, 2, 3, 4, 5, 6, 7, 8]);
    assert!(fps_texture_pixels(b"not a png").is_none());
    assert!(fps_texture_pixels(&[]).is_none());
}
