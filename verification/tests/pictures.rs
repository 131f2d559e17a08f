use frustalz::bitmap::{Bitmap, Rgb};
use frustalz::edges::edges;
use frustalz::finder::find_point;
use frustalz::render::{can_produce, downsample, produce_image, render, MAX_SIDE};
use frustalz::target::{find_toned_point, locate_target, Tone};

fn pattern(width: u32, height: u32) -> Bitmap {
    let mut bytes: Vec<u8> = Vec::new();
    let mut seed: u32 = 12345;
    for _ in 0..(width * height * 3) {
        seed = seed.wrapping_mul(1103515245).wrapping_add(12345);
        bytes.push((seed >> 16) as u8);
    }
    Bitmap::from_raw(width, height, &bytes).unwrap()
}

fn gray_picture(width: u32, height: u32, rows: &[&[u8]]) -> Bitmap {
    let mut picture = Bitmap::new(width, height);
    for y in 0..height {
        for x in 0..width {
            picture.put_pixel(x, y, Rgb::gray(rows[y as usize][x as usize]));
        }
    }
    picture
}

#[test]
fn new_bitmap_is_black() {
    let picture = Bitmap::new(3, 2);
    assert_eq!(picture.dimensions(), (3, 2));
    assert_eq!(picture.width(), 3);
    assert_eq!(picture.height(), 2);
    assert_eq!(picture.pixel_count(), 6);
    assert_eq!(picture.to_raw(), vec![0u8; 18]);
}

#[test]
fn filled_bitmap_repeats_the_pixel() {
    let pixel = Rgb { red: 1, green: 2, blue: 3 };
    let picture = Bitmap::filled(2, 2, pixel);
    assert_eq!(picture.to_raw(), vec![1, 2, 3, 1, 2, 3, 1, 2, 3, 1, 2, 3]);
    assert_eq!(picture.get_pixel(1, 1), pixel);
}

#[test]
fn gray_pixel_has_three_equal_channels() {
    assert_eq!(Rgb::gray(77), Rgb { red: 77, green: 77, blue: 77 });
}

#[test]
fn from_raw_wants_three_bytes_a_pixel() {
    let bytes: Vec<u8> = (0u8..12).collect();
    let picture = Bitmap::from_raw(2, 2, &bytes).unwrap();
    assert_eq!(picture.get_pixel(0, 0), Rgb { red: 0, green: 1, blue: 2 });
    assert_eq!(picture.get_pixel(1, 0), Rgb { red: 3, green: 4, blue: 5 });
    assert_eq!(picture.get_pixel(0, 1), Rgb { red: 6, green: 7, blue: 8 });
    assert_eq!(picture.get_pixel(1, 1), Rgb { red: 9, green: 10, blue: 11 });
    assert_eq!(picture.to_raw(), bytes);
    assert!(Bitmap::from_raw(2, 2, &bytes[..11].to_vec()).is_none());
    assert!(Bitmap::from_raw(1, 2, &bytes).is_none());
    assert!(Bitmap::from_raw(0, 0, &Vec::new()).is_some());
    assert!(Bitmap::from_raw(0, 5, &vec![0u8; 3]).is_none());
}

#[test]
fn from_bytes_reads_row_by_row() {
    let bytes: Vec<u8> = (10u8..28).collect();
    let picture = Bitmap::from_bytes(3, 2, &bytes);
    assert_eq!(picture.dimensions(), (3, 2));
    assert_eq!(picture.get_pixel(2, 0), Rgb { red: 16, green: 17, blue: 18 });
    assert_eq!(picture.get_pixel(0, 1), Rgb { red: 19, green: 20, blue: 21 });
    assert_eq!(picture.to_raw(), bytes);
}

#[test]
fn put_pixel_changes_one_pixel() {
    let mut picture = Bitmap::new(3, 3);
    picture.put_pixel(2, 1, Rgb { red: 9, green: 8, blue: 7 });
    for y in 0..3 {
        for x in 0..3 {
            let expected = if (x, y) == (2, 1) {
                Rgb { red: 9, green: 8, blue: 7 }
            } else {
                Rgb::gray(0)
            };
            assert_eq!(picture.get_pixel(x, y), expected);
        }
    }
}

#[test]
fn clone_copies_every_pixel() {
    let picture = pattern(5, 3);
    let copy = picture.clone();
    assert_eq!(copy.dimensions(), (5, 3));
    assert_eq!(copy.to_raw(), picture.to_raw());
}

#[test]
fn edges_of_a_flat_picture_are_black() {
    let flat = Bitmap::filled(5, 4, Rgb::gray(200));
    assert_eq!(edges(&flat).to_raw(), vec![0u8; 5 * 4 * 3]);
}

#[test]
fn edges_weigh_the_centre_by_eight() {
    let picture = gray_picture(3, 3, &[&[10, 10, 10], &[10, 20, 10], &[10, 10, 10]]);
    let contours = edges(&picture);
    assert_eq!(contours.get_pixel(1, 1), Rgb::gray(80));
    assert_eq!(contours.get_pixel(0, 0), Rgb::gray(0));
    assert_eq!(contours.get_pixel(2, 1), Rgb::gray(0));
}

#[test]
fn edges_clamp_to_the_channel_range() {
    let bright = gray_picture(3, 3, &[&[0, 0, 0], &[0, 255, 0], &[0, 0, 0]]);
    assert_eq!(edges(&bright).get_pixel(1, 1), Rgb::gray(255));
    let dark = gray_picture(3, 3, &[&[255, 255, 255], &[255, 0, 255], &[255, 255, 255]]);
    assert_eq!(edges(&dark).get_pixel(1, 1), Rgb::gray(0));
}

#[test]
fn edges_treat_each_channel_alone() {
    let mut picture = Bitmap::new(3, 3);
    picture.put_pixel(1, 1, Rgb { red: 10, green: 0, blue: 30 });
    picture.put_pixel(0, 0, Rgb { red: 0, green: 5, blue: 40 });
    assert_eq!(edges(&picture).get_pixel(1, 1), Rgb { red: 80, green: 0, blue: 200 });
}

#[test]
fn edges_of_small_pictures_are_black() {
    for (width, height) in [(0, 0), (1, 1), (2, 5), (5, 2), (0, 3)] {
        let picture = Bitmap::filled(width, height, Rgb::gray(90));
        let contours = edges(&picture);
        assert_eq!(contours.dimensions(), (width, height));
        assert_eq!(contours.to_raw(), vec![0u8; (width * height * 3) as usize]);
    }
}

#[test]
fn edges_agree_with_the_kernel_filter() {
    for (width, height) in [(3, 3), (7, 5), (4, 9), (16, 16)] {
        let picture = pattern(width, height);
        let source = image::RgbImage::from_raw(width, height, picture.to_raw()).unwrap();
        let kernel: [f32; 9] = [-1.0, -1.0, -1.0, -1.0, 8.0, -1.0, -1.0, -1.0, -1.0];
        let expected = image::imageops::filter3x3(&source, &kernel).into_raw();
        assert_eq!(edges(&picture).to_raw(), expected);
    }
}

#[test]
fn find_point_returns_the_start_when_it_matches() {
    let picture = Bitmap::filled(4, 4, Rgb::gray(10));
    assert_eq!(find_point((2, 3), &picture, |p: Rgb| p.red <= 128), Some((2, 3)));
    assert_eq!(find_point((0, 0), &picture, |_p: Rgb| true), Some((0, 0)));
}

#[test]
fn find_point_returns_nothing_without_a_match() {
    let picture = Bitmap::filled(4, 3, Rgb::gray(10));
    assert_eq!(find_point((1, 1), &picture, |p: Rgb| p.red > 128), None);
    let single = Bitmap::filled(1, 1, Rgb::gray(10));
    assert_eq!(find_point((0, 0), &single, |p: Rgb| p.red > 128), None);
}

#[test]
fn find_point_returns_the_nearest_match() {
    let mut picture = Bitmap::new(9, 7);
    picture.put_pixel(8, 6, Rgb::gray(255));
    picture.put_pixel(1, 1, Rgb::gray(255));
    picture.put_pixel(6, 3, Rgb::gray(255));
    assert_eq!(find_point((4, 3), &picture, |p: Rgb| p.red >= 128), Some((6, 3)));
    assert_eq!(find_point((0, 0), &picture, |p: Rgb| p.red >= 128), Some((1, 1)));
    assert_eq!(find_point((8, 5), &picture, |p: Rgb| p.red >= 128), Some((8, 6)));
    assert_eq!(find_point((0, 6), &picture, |p: Rgb| p.red >= 128), Some((1, 1)));
}

#[test]
fn find_point_prefers_the_upper_then_the_left_of_equals() {
    let mut picture = Bitmap::new(5, 5);
    picture.put_pixel(2, 1, Rgb::gray(255));
    picture.put_pixel(1, 2, Rgb::gray(255));
    picture.put_pixel(3, 2, Rgb::gray(255));
    picture.put_pixel(2, 3, Rgb::gray(255));
    assert_eq!(find_point((2, 2), &picture, |p: Rgb| p.red >= 128), Some((2, 1)));
    picture.put_pixel(2, 1, Rgb::gray(0));
    assert_eq!(find_point((2, 2), &picture, |p: Rgb| p.red >= 128), Some((1, 2)));
    picture.put_pixel(1, 2, Rgb::gray(0));
    assert_eq!(find_point((2, 2), &picture, |p: Rgb| p.red >= 128), Some((3, 2)));
    picture.put_pixel(3, 2, Rgb::gray(0));
    assert_eq!(find_point((2, 2), &picture, |p: Rgb| p.red >= 128), Some((2, 3)));
}

#[test]
fn find_point_takes_the_fewest_steps() {
    let picture = pattern(13, 11);
    for sy in 0..11u32 {
        for sx in 0..13u32 {
            let found = find_point((sx, sy), &picture, |p: Rgb| p.red >= 250);
            let mut best: Option<(u32, u32, u32)> = None;
            for y in 0..11u32 {
                for x in 0..13u32 {
                    if picture.get_pixel(x, y).red >= 250 {
                        let steps = x.abs_diff(sx) + y.abs_diff(sy);
                        if best.map_or(true, |b| (steps, y, x) < b) {
                            best = Some((steps, y, x));
                        }
                    }
                }
            }
            assert_eq!(found, best.map(|(_, y, x)| (x, y)));
        }
    }
}

#[test]
fn find_point_reads_the_whole_pixel() {
    let mut picture = Bitmap::new(3, 1);
    picture.put_pixel(2, 0, Rgb { red: 0, green: 0, blue: 9 });
    assert_eq!(find_point((0, 0), &picture, |p: Rgb| p.blue == 9), Some((2, 0)));
}

#[test]
fn toned_points_use_the_half_range() {
    let picture = gray_picture(3, 1, &[&[129, 128, 127]]);
    assert_eq!(find_toned_point((0, 0), &picture, Tone::Dark), Some((1, 0)));
    assert_eq!(find_toned_point((2, 0), &picture, Tone::Bright), Some((1, 0)));
    assert_eq!(find_toned_point((0, 0), &picture, Tone::Bright), Some((0, 0)));
    let bright = Bitmap::filled(2, 2, Rgb::gray(200));
    assert_eq!(find_toned_point((0, 0), &bright, Tone::Dark), None);
}

#[test]
fn target_is_a_contour_near_the_dark_point() {
    let mut grayscaled = Bitmap::filled(7, 7, Rgb::gray(0));
    grayscaled.put_pixel(4, 3, Rgb::gray(100));
    let mut blurred = Bitmap::filled(7, 7, Rgb::gray(255));
    blurred.put_pixel(1, 3, Rgb::gray(20));
    assert_eq!(locate_target((0, 0), &grayscaled, &blurred), Some((4, 3)));
}

#[test]
fn target_is_missing_without_a_dark_point_or_a_contour() {
    let flat = Bitmap::filled(5, 5, Rgb::gray(0));
    let bright = Bitmap::filled(5, 5, Rgb::gray(255));
    assert_eq!(locate_target((2, 2), &flat, &bright), None);
    assert_eq!(locate_target((2, 2), &flat, &flat), None);
}

#[test]
fn render_paints_each_sample_at_its_place() {
    let sampler = |x: u32, y: u32| (10 * y + x) as u8;
    let painter = |i: u8| Rgb { red: i, green: i / 2, blue: 255 - i };
    let picture = render(&sampler, 4, 3, &painter);
    assert_eq!(picture.dimensions(), (4, 3));
    for y in 0..3u32 {
        for x in 0..4u32 {
            let i = (10 * y + x) as u8;
            assert_eq!(picture.get_pixel(x, y), Rgb { red: i, green: i / 2, blue: 255 - i });
        }
    }
}

#[test]
fn produce_image_without_antialiasing_is_the_rendering() {
    let picture = produce_image(|x: u32, y: u32| (x * 16 + y) as u8, (5, 4), None, Rgb::gray);
    assert_eq!(picture.dimensions(), (5, 4));
    for y in 0..4u32 {
        for x in 0..5u32 {
            assert_eq!(picture.get_pixel(x, y), Rgb::gray((x * 16 + y) as u8));
        }
    }
}

#[test]
fn produce_image_with_antialiasing_downsamples_the_larger_rendering() {
    let sampler = |x: u32, y: u32| ((x * 7 + y * 13) % 256) as u8;
    let painter = |i: u8| Rgb { red: i, green: 255 - i, blue: i / 3 };
    let picture = produce_image(sampler, (6, 5), Some(4), painter);
    assert_eq!(picture.dimensions(), (6, 5));
    let mut large = image::RgbImage::new(24, 20);
    for y in 0..20u32 {
        for x in 0..24u32 {
            let i = ((x * 7 + y * 13) % 256) as u8;
            large.put_pixel(x, y, image::Rgb { data: [i, 255 - i, i / 3] });
        }
    }
    let expected = image::imageops::resize(&large, 6, 5, image::FilterType::Triangle);
    assert_eq!(picture.to_raw(), expected.into_raw());
}

#[test]
fn produce_image_asks_about_the_larger_picture_only() {
    let sampler = |x: u32, y: u32| {
        assert!(x < 8 && y < 4);
        0u8
    };
    let picture = produce_image(sampler, (2, 1), Some(4), Rgb::gray);
    assert_eq!(picture.to_raw(), vec![0u8; 6]);
}

#[test]
fn produce_image_with_factor_one_keeps_the_size() {
    let picture = produce_image(|x: u32, _y: u32| (x * 50) as u8, (4, 2), Some(1), Rgb::gray);
    assert_eq!(picture.dimensions(), (4, 2));
    assert_eq!(picture.pixel_count(), 8);
}

#[test]
fn produce_image_of_an_empty_picture_is_empty() {
    let picture = produce_image(|_x: u32, _y: u32| 1u8, (0, 3), Some(4), Rgb::gray);
    assert_eq!(picture.dimensions(), (0, 3));
    assert_eq!(picture.pixel_count(), 0);
    let picture = produce_image(|_x: u32, _y: u32| 1u8, (3, 0), None, Rgb::gray);
    assert_eq!(picture.dimensions(), (3, 0));
}

#[test]
fn produce_image_twice_gives_the_same_bytes() {
    let sampler = |x: u32, y: u32| (x.wrapping_mul(31) ^ y.wrapping_mul(17)) as u8;
    let painter = |i: u8| Rgb { red: i, green: i.wrapping_mul(3), blue: !i };
    for antialiazing in [None, Some(1), Some(4)] {
        let first = produce_image(&sampler, (9, 7), antialiazing, &painter);
        let second = produce_image(&sampler, (9, 7), antialiazing, &painter);
        assert_eq!(first.to_raw(), second.to_raw());
    }
}

#[test]
fn downsample_agrees_with_the_triangle_filter() {
    let picture = pattern(12, 8);
    let small = downsample(&picture, 3, 2);
    assert_eq!(small.dimensions(), (3, 2));
    let source = image::RgbImage::from_raw(12, 8, picture.to_raw()).unwrap();
    let expected = image::imageops::resize(&source, 3, 2, image::FilterType::Triangle);
    assert_eq!(small.to_raw(), expected.into_raw());
    assert_ne!(small.to_raw(), picture.to_raw());
}

#[test]
fn downsample_of_a_flat_picture_is_flat() {
    let picture = Bitmap::filled(8, 8, Rgb { red: 10, green: 20, blue: 30 });
    let small = downsample(&picture, 2, 2);
    assert_eq!(small.to_raw(), vec![10, 20, 30, 10, 20, 30, 10, 20, 30, 10, 20, 30]);
}

#[test]
fn can_produce_tells_what_fits() {
    assert!(can_produce((800, 600), Some(4)));
    assert!(can_produce((800, 600), None));
    assert!(can_produce((0, 0), Some(4)));
    assert!(can_produce((MAX_SIDE, 1), Some(1)));
    assert!(!can_produce((MAX_SIDE, 1), Some(4)));
    assert!(!can_produce((MAX_SIDE / 4 + 1, 1), Some(4)));
    assert!(can_produce((MAX_SIDE / 4, MAX_SIDE / 4), Some(4)));
    assert!(can_produce((70000, 1), Some(4)));
    assert!(!can_produce((1, 300000), Some(4)));
    assert!(can_produce((100000, 100000), None));
    assert_eq!(MAX_SIDE, 1 << 20);
}

fn shortest_path_cost(start: (u32, u32), picture: &Bitmap, threshold: u8) -> Option<u32> {
    let (width, height) = picture.dimensions();
    let result = pathfinding::prelude::dijkstra(
        &start,
        |&(x, y)| {
            let mut neighbours: Vec<((u32, u32), u32)> = Vec::new();
            if x > 0 {
                neighbours.push(((x - 1, y), 1))
            }
            if y > 0 {
                neighbours.push(((x, y - 1), 1))
            }
            if x < width - 1 {
                neighbours.push(((x + 1, y), 1))
            }
            if y < height - 1 {
                neighbours.push(((x, y + 1), 1))
            }
            neighbours
        },
        |&(x, y)| picture.get_pixel(x, y).red >= threshold,
    );
    result.map(|(_, cost)| cost)
}

#[test]
fn find_point_is_as_near_as_the_shortest_path() {
    for (width, height, threshold) in [(9u32, 6u32, 240u8), (1, 8, 200), (12, 1, 250), (7, 7, 255)] {
        let picture = pattern(width, height);
        for sy in 0..height {
            for sx in 0..width {
                let found = find_point((sx, sy), &picture, |p: Rgb| p.red >= threshold);
                let steps = found.map(|(x, y)| x.abs_diff(sx) + y.abs_diff(sy));
                assert_eq!(steps, shortest_path_cost((sx, sy), &picture, threshold));
                if let Some((x, y)) = found {
                    assert!(picture.get_pixel(x, y).red >= threshold);
                }
            }
        }
    }
}

fn resized_directly(picture: &Bitmap, width: u32, height: u32) -> Vec<u8> {
    let (from_width, from_height) = picture.dimensions();
    let source = image::RgbImage::from_raw(from_width, from_height, picture.to_raw()).unwrap();
    image::imageops::resize(&source, width, height, image::FilterType::Triangle).into_raw()
}

#[test]
fn downsample_takes_a_long_row() {
    let picture = pattern(70000, 1);
    let small = downsample(&picture, 17500, 1);
    assert_eq!(small.dimensions(), (17500, 1));
    assert_eq!(small.to_raw(), resized_directly(&picture, 17500, 1));
}

#[test]
fn downsample_takes_the_longest_row() {
    let picture = pattern(MAX_SIDE, 1);
    let small = downsample(&picture, MAX_SIDE / 4, 1);
    assert_eq!(small.dimensions(), (MAX_SIDE / 4, 1));
    assert_eq!(small.pixel_count(), (MAX_SIDE / 4) as usize);
    let nearly = downsample(&picture, MAX_SIDE - 1, 1);
    assert_eq!(nearly.dimensions(), (MAX_SIDE - 1, 1));
    let one = downsample(&picture, 1, 1);
    assert_eq!(one.pixel_count(), 1);
}

#[test]
fn downsample_takes_the_longest_column() {
    let picture = pattern(1, MAX_SIDE);
    let small = downsample(&picture, 1, MAX_SIDE / 4);
    assert_eq!(small.dimensions(), (1, MAX_SIDE / 4));
    let nearly = downsample(&picture, 1, MAX_SIDE - 1);
    assert_eq!(nearly.dimensions(), (1, MAX_SIDE - 1));
}

#[test]
fn resizing_can_stretch_up_to_the_longest_side() {
    let picture = pattern(MAX_SIDE - 1, 1);
    let wide = downsample(&picture, MAX_SIDE, 1);
    assert_eq!(wide.dimensions(), (MAX_SIDE, 1));
    let tiny = pattern(1, 1);
    let stretched = downsample(&tiny, MAX_SIDE, 1);
    assert_eq!(stretched.pixel_count(), MAX_SIDE as usize);
    assert_eq!(stretched.get_pixel(MAX_SIDE - 1, 0), tiny.get_pixel(0, 0));
}

#[test]
fn resizing_the_longest_side_works_at_many_ratios() {
    let picture = pattern(MAX_SIDE, 1);
    for width in [2u32, 3, 7, 1000, 65535, 65537, 524287, 524289, 999983, MAX_SIDE] {
        let resized = downsample(&picture, width, 1);
        assert_eq!(resized.dimensions(), (width, 1));
        assert_eq!(resized.pixel_count(), width as usize);
    }
    for from in [2u32, 3, 1000, 65537, 524289, 999983] {
        let source = pattern(from, 1);
        let resized = downsample(&source, MAX_SIDE, 1);
        assert_eq!(resized.dimensions(), (MAX_SIDE, 1));
    }
}
