use pixelate::image_processing::{apply_palette, generate_image_palette, get_color_histogram, scale};
use pixelate::resample::FilterType;
use pixelate::{ProcessedImage, Rgb, RgbImage};
use std::collections::HashMap;

fn rgb(r: u8, g: u8, b: u8) -> Rgb {
    Rgb { r, g, b }
}

fn get_test_image() -> ProcessedImage {
    let maroon = rgb(136, 0, 21);
    let black = rgb(0, 0, 0);
    let yellow = rgb(255, 242, 0);
    let brown = rgb(185, 122, 87);
    let green = rgb(34, 177, 76);
    let blue = rgb(63, 72, 204);
    let mut img_data: Vec<Rgb> = Vec::new();
    for _ in 0..2 {
        img_data.extend([maroon; 3]);
        img_data.extend([black; 7]);
    }
    for _ in 0..5 {
        img_data.extend([maroon; 3]);
        img_data.extend([yellow; 3]);
        img_data.extend([brown; 2]);
        img_data.extend([green; 2]);
    }
    for _ in 0..3 {
        img_data.extend([maroon; 3]);
        img_data.extend([blue; 7]);
    }
    ProcessedImage::from_buffer(10, 10, &img_data)
}

#[test]
fn test_histogram() {
    let image = get_test_image();
    println!("Dimensions: {}x{}", image.width(), image.height());
    let histogram = image.get_color_histogram();
    println!("Histogram: {:?}", histogram);
    assert_eq!(histogram.len(), 6);
    let expected = HashMap::from([
        (rgb(136, 0, 21).code(), 30),
        (rgb(185, 122, 87).code(), 10),
        (rgb(255, 242, 0).code(), 15),
        (rgb(34, 177, 76).code(), 10),
        (rgb(63, 72, 204).code(), 21),
        (rgb(0, 0, 0).code(), 14),
    ]);
    assert_eq!(histogram, expected);
}

#[test]
fn test_scaling() {
    let mut image = get_test_image();
    image.scale(100, 100, true);
    assert_eq!(image.width(), 100);
    assert_eq!(image.height(), 100);
    image.uniform_scale_width(50, true);
    assert_eq!(image.width(), 50);
    assert_eq!(image.height(), 50);
    image.uniform_scale_height(70, true);
    assert_eq!(image.width(), 70);
    assert_eq!(image.height(), 70);
}

#[test]
fn test_palette_gen() {
    let image = get_test_image();
    let palette = image.generate_image_palette(10, 6);
    let expected_palette = [
        rgb(239, 0, 180),
        rgb(117, 21, 17),
        rgb(7, 27, 143),
        rgb(171, 171, 171),
        rgb(93, 177, 123),
        rgb(213, 213, 213),
    ];
    assert_eq!(palette, expected_palette);
}

#[test]
fn test_apply_palette() {
    let buffer = [
        rgb(0xFF, 0xFF, 0xFF),
        rgb(0x88, 0x88, 0x88),
        rgb(0x22, 0x22, 0x22),
        rgb(0, 0, 0),
    ];
    let mut image = ProcessedImage::from_buffer(2, 2, &buffer);
    let palette = vec![rgb(0, 0, 0), rgb(0x90, 0x90, 0x90)];
    image.apply_palette(&palette);
    let expected = [0x90u8, 0x90, 0x90, 0x90, 0x90, 0x90, 0, 0, 0, 0, 0, 0]
        .into_iter()
        .collect::<Vec<_>>();
    let data = image.data.as_raw();
    assert_eq!(data, &expected);
}

#[test]
fn histogram_counts_add_up_to_the_pixel_count() {
    let image = get_test_image();
    let histogram = get_color_histogram(&image.data);
    let total: u64 = histogram.values().map(|&count| u64::from(count)).sum();
    assert_eq!(total, 100);
}

#[test]
fn histogram_of_an_image_without_pixels_is_empty() {
    let image = ProcessedImage::from_buffer(0, 5, &[]);
    assert!(image.get_color_histogram().is_empty());
}

#[test]
fn palette_generation_is_repeatable() {
    let image = get_test_image();
    let first = generate_image_palette(&image.data, 10, 6);
    let second = generate_image_palette(&image.data, 10, 6);
    assert_eq!(first, second);
    assert_eq!(first.len(), 6);
}

#[test]
fn palette_has_the_requested_size_even_beyond_the_sample_count() {
    let image = ProcessedImage::from_buffer(1, 1, &[rgb(10, 20, 30)]);
    let palette = image.generate_image_palette(1, 4);
    assert_eq!(palette.len(), 4);
}

#[test]
fn remapped_pixels_are_palette_colors() {
    let mut image = get_test_image();
    let palette = vec![rgb(10, 10, 10), rgb(200, 30, 30), rgb(30, 30, 200), rgb(240, 240, 10)];
    image.apply_palette(&palette);
    let raw = image.data.as_raw();
    for pixel in raw.chunks(3) {
        assert!(palette.contains(&rgb(pixel[0], pixel[1], pixel[2])));
    }
}

#[test]
fn remapping_a_quantized_image_changes_nothing() {
    let mut image = get_test_image();
    let palette = vec![rgb(10, 10, 10), rgb(200, 30, 30), rgb(30, 30, 200), rgb(240, 240, 10)];
    image.apply_palette(&palette);
    let once = image.data.as_raw().clone();
    image.apply_palette(&palette);
    assert_eq!(image.data.as_raw(), &once);
}

#[test]
fn equally_near_entries_resolve_to_the_lowest_index() {
    let palette = vec![rgb(10, 0, 0), rgb(0, 10, 0), rgb(0, 0, 10), rgb(10, 0, 0)];
    let image = ProcessedImage::from_buffer(1, 1, &[rgb(0, 0, 0)]);
    let out = apply_palette(&image.data, &palette);
    assert_eq!(out.get_pixel(0, 0), rgb(10, 0, 0));
    let index = pixelate::spatial_index::SpatialIndex::build(&palette);
    assert_eq!(index.nearest(rgb(0, 0, 0)), 0);
    assert_eq!(index.nearest(rgb(0, 9, 0)), 1);
    assert_eq!(index.len(), 4);
}

#[test]
fn tree_search_agrees_with_a_linear_scan() {
    let mut palette: Vec<Rgb> = Vec::new();
    let mut seed: u32 = 12345;
    for _ in 0..200 {
        seed = seed.wrapping_mul(1664525).wrapping_add(1013904223);
        palette.push(rgb((seed >> 24) as u8, (seed >> 16) as u8, (seed >> 8) as u8));
    }
    let index = pixelate::spatial_index::SpatialIndex::build(&palette);
    for _ in 0..500 {
        seed = seed.wrapping_mul(1664525).wrapping_add(1013904223);
        let query = rgb((seed >> 24) as u8, (seed >> 16) as u8, (seed >> 8) as u8);
        let mut best = 0usize;
        for (i, color) in palette.iter().enumerate() {
            if color.sq_distance(query) < palette[best].sq_distance(query) {
                best = i;
            }
        }
        assert_eq!(index.nearest(query), best);
        assert_eq!(index.nearest_color(query), palette[best]);
    }
}

#[test]
fn scale_returns_exactly_the_target_dimensions() {
    let image = get_test_image();
    for &(w, h) in &[(1u32, 1u32), (3, 7), (10, 10), (25, 4)] {
        for &filter in &[FilterType::Nearest, FilterType::Triangle, FilterType::CatmullRom, FilterType::Gaussian, FilterType::Lanczos3] {
            let out = scale(&image.data, w, h, filter);
            assert_eq!(out.dimensions(), (w, h));
            assert_eq!(out.as_raw().len(), 3 * (w as usize) * (h as usize));
        }
    }
}

#[test]
fn scaling_to_the_same_dimensions_keeps_the_pixels() {
    let image = get_test_image();
    let nearest = scale(&image.data, 10, 10, FilterType::Nearest);
    assert_eq!(nearest.as_raw(), image.data.as_raw());
    let smooth = scale(&image.data, 10, 10, FilterType::Lanczos3);
    assert_eq!(smooth.as_raw(), image.data.as_raw());
}

#[test]
fn scaling_changes_the_buffer() {
    let image = get_test_image();
    let out = scale(&image.data, 5, 5, FilterType::Nearest);
    assert_ne!(out.as_raw(), image.data.as_raw());
    assert_eq!(out.as_raw().len(), 75);
}

#[test]
fn scaling_an_image_without_pixels_gives_black() {
    let empty = RgbImage::from_raw(0, 0, Vec::new()).unwrap();
    let out = scale(&empty, 2, 2, FilterType::Lanczos3);
    assert_eq!(out.as_raw(), &vec![0u8; 12]);
}

#[test]
fn from_raw_wants_three_bytes_per_pixel() {
    assert!(RgbImage::from_raw(2, 2, vec![0u8; 12]).is_some());
    assert!(RgbImage::from_raw(2, 2, vec![0u8; 11]).is_none());
    assert!(RgbImage::from_raw(2, 2, vec![0u8; 13]).is_none());
    let image = RgbImage::from_raw(2, 1, vec![1, 2, 3, 4, 5, 6]).unwrap();
    assert_eq!(image.width(), 2);
    assert_eq!(image.height(), 1);
    assert_eq!(image.get_pixel(1, 0), rgb(4, 5, 6));
    assert_eq!(image.into_raw(), vec![1, 2, 3, 4, 5, 6]);
}

#[test]
fn from_buffer_takes_the_first_pixels_row_by_row() {
    let buffer = [rgb(1, 1, 1), rgb(2, 2, 2), rgb(3, 3, 3), rgb(4, 4, 4), rgb(5, 5, 5)];
    let image = ProcessedImage::from_buffer(2, 2, &buffer);
    assert_eq!(image.data.get_pixel(0, 1), rgb(3, 3, 3));
    assert_eq!(image.data.as_raw().len(), 12);
}

#[test]
fn index_of_an_empty_palette_holds_nothing() {
    let index = pixelate::spatial_index::SpatialIndex::build(&Vec::new());
    assert_eq!(index.len(), 0);
    let empty = ProcessedImage::from_buffer(0, 0, &[]);
    let out = apply_palette(&empty.data, &Vec::new());
    assert_eq!(out.dimensions(), (0, 0));
}

#[test]
fn single_entry_palette_takes_every_pixel() {
    let mut image = get_test_image();
    image.apply_palette(&vec![rgb(9, 8, 7)]);
    for pixel in image.data.as_raw().chunks(3) {
        assert_eq!(pixel, &[9u8, 8, 7][..]);
    }
}

#[test]
fn index_copes_with_long_runs_of_equal_colors() {
    let mut palette: Vec<Rgb> = vec![rgb(40, 40, 40); 20000];
    palette.push(rgb(200, 10, 10));
    palette.extend(vec![rgb(40, 41, 40); 20000]);
    for level in 0..=255u8 {
        palette.push(rgb(level, level, level));
    }
    let index = pixelate::spatial_index::SpatialIndex::build(&palette);
    assert_eq!(index.len(), palette.len());
    assert_eq!(index.nearest(rgb(40, 40, 40)), 0);
    assert_eq!(index.nearest(rgb(40, 41, 40)), 20001);
    assert_eq!(index.nearest(rgb(201, 10, 10)), 20000);
    assert_eq!(index.nearest(rgb(255, 255, 255)), palette.len() - 1);
    assert_eq!(index.nearest(rgb(0, 0, 0)), 40001);
}

#[test]
fn scaling_to_a_side_of_zero_gives_an_image_without_pixels() {
    let image = get_test_image();
    for &(w, h) in &[(0u32, 5u32), (5, 0), (0, 0)] {
        for &filter in &[FilterType::Nearest, FilterType::Lanczos3] {
            let out = scale(&image.data, w, h, filter);
            assert_eq!(out.dimensions(), (w, h));
            assert!(out.as_raw().is_empty());
        }
    }
}

#[test]
fn scaling_an_image_without_pixels_to_its_own_dimensions_keeps_it() {
    let empty = RgbImage::from_raw(0, 7, Vec::new()).unwrap();
    let out = scale(&empty, 0, 7, FilterType::Triangle);
    assert_eq!(out.dimensions(), (0, 7));
    assert!(out.as_raw().is_empty());
}

#[test]
fn one_pixel_scales_up_to_a_flat_image() {
    let image = ProcessedImage::from_buffer(1, 1, &[rgb(10, 200, 30)]);
    for &filter in &[FilterType::Nearest, FilterType::Triangle, FilterType::CatmullRom, FilterType::Gaussian, FilterType::Lanczos3] {
        let out = scale(&image.data, 4, 3, filter);
        assert_eq!(out.dimensions(), (4, 3));
        for pixel in out.as_raw().chunks(3) {
            assert_eq!(pixel, &[10u8, 200, 30][..]);
        }
    }
}

#[test]
fn palette_generation_accepts_the_whole_range_of_its_settings() {
    let image = get_test_image();
    assert_eq!(generate_image_palette(&image.data, 1, 1).len(), 1);
    assert_eq!(generate_image_palette(&image.data, 31, 3).len(), 3);
    assert_eq!(generate_image_palette(&image.data, i32::MAX, 300).len(), 300);
    let empty = ProcessedImage::from_buffer(0, 0, &[]);
    assert_eq!(empty.generate_image_palette(10, 8).len(), 8);
    let tiny = ProcessedImage::from_buffer(1, 1, &[rgb(1, 2, 3)]);
    assert_eq!(tiny.generate_image_palette(1, 2).len(), 2);
}

#[test]
fn untrained_palette_is_the_gray_ramp_of_the_network() {
    let empty = ProcessedImage::from_buffer(0, 0, &[]);
    let palette = empty.generate_image_palette(10, 4);
    assert_eq!(palette, vec![rgb(0, 0, 0), rgb(64, 64, 64), rgb(128, 128, 128), rgb(192, 192, 192)]);
}

#[test]
fn nearest_neighbour_makes_no_new_color() {
    let image = get_test_image();
    let source: Vec<Rgb> = image.data.as_raw().chunks(3).map(|p| rgb(p[0], p[1], p[2])).collect();
    for &(w, h) in &[(1u32, 1u32), (3, 7), (7, 3), (25, 40), (100, 100), (9, 11)] {
        let out = scale(&image.data, w, h, FilterType::Nearest);
        assert_eq!(out.dimensions(), (w, h));
        for pixel in out.as_raw().chunks(3) {
            assert!(source.contains(&rgb(pixel[0], pixel[1], pixel[2])));
        }
    }
}

#[test]
fn a_quantized_image_stays_in_its_palette_when_scaled_without_smoothing() {
    let mut image = get_test_image();
    let palette = vec![rgb(10, 10, 10), rgb(200, 30, 30), rgb(30, 30, 200), rgb(240, 240, 10)];
    image.apply_palette(&palette);
    image.uniform_scale_width(37, false);
    assert_eq!((image.width(), image.height()), (37, 37));
    for pixel in image.data.as_raw().chunks(3) {
        assert!(palette.contains(&rgb(pixel[0], pixel[1], pixel[2])));
    }
    image.scale(5, 64, false);
    for pixel in image.data.as_raw().chunks(3) {
        assert!(palette.contains(&rgb(pixel[0], pixel[1], pixel[2])));
    }
}

#[test]
fn smoothing_may_make_new_colors() {
    let image = get_test_image();
    let source: Vec<Rgb> = image.data.as_raw().chunks(3).map(|p| rgb(p[0], p[1], p[2])).collect();
    let out = scale(&image.data, 23, 23, FilterType::Triangle);
    assert!(out.as_raw().chunks(3).any(|p| !source.contains(&rgb(p[0], p[1], p[2]))));
}
