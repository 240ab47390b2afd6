use engiffen::color::Color;
use engiffen::image::Image;
use engiffen::naive::{closest_index, naive_palettize, nearest_in_palette};
use engiffen::neuquant::{neuquant_palettize, note_transparency, sample_pixels};
use engiffen::order::frequency_order;
use engiffen::tally::tally_colors;

#[test]
fn closest_index_is_the_first_minimum() {
    assert_eq!(closest_index(&vec![5, 3, 3, 9]), 1);
    assert_eq!(closest_index(&vec![7]), 0);
    assert_eq!(closest_index(&vec![9, 8, 7, 6]), 3);
    assert_eq!(closest_index(&vec![0, 0, 0]), 0);
    assert_eq!(closest_index(&vec![u32::MAX, 4, u32::MAX, 4]), 1);
    assert_eq!(closest_index(&vec![]), 0);
}

#[test]
fn nearest_in_palette_prefers_the_closer_colour() {
    let black = Color::new(0, 0, 0, 255);
    let white = Color::new(255, 255, 255, 255);
    let palette = vec![black, white];
    assert_eq!(nearest_in_palette(&palette, Color::new(30, 30, 30, 255)), 0);
    assert_eq!(nearest_in_palette(&palette, Color::new(230, 230, 230, 255)), 1);
    assert_eq!(nearest_in_palette(&palette, white), 1);
    assert_eq!(nearest_in_palette(&vec![white, black], Color::new(30, 30, 30, 255)), 1);
}

#[test]
fn nearest_in_palette_takes_the_first_of_equally_close_colours() {
    let red = Color::new(200, 0, 0, 255);
    let same_red = Color::new(200, 0, 0, 0);
    let blue = Color::new(0, 0, 200, 255);
    assert_eq!(nearest_in_palette(&vec![blue, red, same_red], Color::new(190, 5, 5, 255)), 1);
    assert_eq!(nearest_in_palette(&vec![same_red, blue, red], Color::new(190, 5, 5, 255)), 0);
    assert_eq!(nearest_in_palette(&vec![], red), 0);
}

#[test]
fn frequency_order_is_by_falling_count_then_by_position() {
    assert_eq!(frequency_order(&vec![1, 3, 3, 2]), vec![1, 2, 3, 0]);
    assert_eq!(frequency_order(&vec![4, 4, 4]), vec![0, 1, 2]);
    assert_eq!(frequency_order(&vec![1, 2, 3]), vec![2, 1, 0]);
    assert_eq!(frequency_order(&vec![u128::MAX, 0, u128::MAX]), vec![0, 2, 1]);
    assert_eq!(frequency_order(&vec![]), Vec::<usize>::new());
}

#[test]
fn tally_lists_colours_as_they_appear_and_counts_them() {
    let a = Color::new(1, 0, 0, 255);
    let b = Color::new(0, 1, 0, 255);
    let c = Color::new(0, 0, 1, 255);
    let imgs = vec![
        Image::from_pixels(2, 2, vec![b, a, b, b]).unwrap(),
        Image::from_pixels(2, 2, vec![c, a, c, b]).unwrap(),
    ];
    let tally = tally_colors(&imgs);
    assert_eq!(tally.colors, vec![b, a, c]);
    assert_eq!(tally.counts, vec![4, 2, 2]);
    let none = tally_colors(&[]);
    assert!(none.colors.is_empty());
    assert!(none.counts.is_empty());
}

#[test]
fn naive_palettize_of_two_colours() {
    let a = Color::new(9, 8, 7, 255);
    let b = Color::new(1, 2, 3, 255);
    let imgs = vec![Image::from_pixels(3, 1, vec![a, b, b]).unwrap()];
    let (palette, images, transparency) = naive_palettize(&imgs);
    assert_eq!(palette, vec![1, 2, 3, 9, 8, 7]);
    assert_eq!(images, vec![vec![1u8, 0, 0]]);
    assert_eq!(transparency, None);
}

fn grid() -> Image {
    let mut pixels = Vec::new();
    for y in 0..3u8 {
        for x in 0..4u8 {
            let alpha = if (x, y) == (2, 0) { 0 } else { 10 * (x + 1) };
            pixels.push(Color::new(10 * x, 10 * y, 100 + x + y, alpha));
        }
    }
    Image::from_pixels(4, 3, pixels).unwrap()
}

#[test]
fn every_pixel_is_sampled_at_stride_one() {
    let samples = sample_pixels(&[grid()], 1);
    assert_eq!(samples.len(), 48);
    assert_eq!(&samples[0..4], &[0, 0, 100, 255]);
    assert_eq!(&samples[4..8], &[10, 0, 101, 255]);
    assert_eq!(&samples[8..12], &[0, 0, 0, 0]);
    assert_eq!(&samples[16..20], &[0, 10, 101, 255]);
    assert_eq!(&samples[44..48], &[30, 20, 105, 255]);
}

#[test]
fn every_second_row_and_column_is_sampled_at_stride_two() {
    let samples = sample_pixels(&[grid(), grid()], 2);
    let one_frame = vec![0, 0, 100, 255, 0, 0, 0, 0, 0, 20, 102, 255, 20, 20, 104, 255];
    let mut both = one_frame.clone();
    both.extend_from_slice(&one_frame);
    assert_eq!(samples, both);
}

#[test]
fn only_the_first_pixel_is_sampled_at_a_wide_stride() {
    assert_eq!(sample_pixels(&[grid()], 4), vec![0, 0, 100, 255]);
    assert_eq!(sample_pixels(&[grid()], u32::MAX), vec![0, 0, 100, 255]);
    assert_eq!(sample_pixels(&[], 1), Vec::<u8>::new());
}

#[test]
fn stride_three_skips_two_of_three() {
    let samples = sample_pixels(&[grid()], 3);
    assert_eq!(samples, vec![0, 0, 100, 255, 30, 0, 103, 255]);
}

#[test]
fn note_transparency_keeps_or_replaces() {
    let clear = Color::new(1, 2, 3, 0);
    let opaque = Color::new(1, 2, 3, 255);
    assert_eq!(note_transparency(None, clear, 7), Some(7));
    assert_eq!(note_transparency(Some(2), clear, 7), Some(7));
    assert_eq!(note_transparency(Some(2), opaque, 7), Some(2));
    assert_eq!(note_transparency(None, opaque, 7), None);
}

#[test]
fn neuquant_palettize_maps_every_pixel() {
    let imgs = vec![grid(), grid()];
    let (palette, images, transparency) = neuquant_palettize(&imgs, 1);
    assert_eq!(palette.len(), 768);
    assert_eq!(images.len(), 2);
    assert_eq!(images[0].len(), 12);
    assert_eq!(images[0], images[1]);
    assert_eq!(transparency, Some(images[1][2]));
}

#[test]
fn image_needs_one_colour_per_position() {
    let c = Color::new(1, 2, 3, 4);
    assert!(Image::from_pixels(2, 2, vec![c; 3]).is_none());
    assert!(Image::from_pixels(2, 2, vec![c; 5]).is_none());
    assert!(Image::from_pixels(0, 2, vec![c; 1]).is_none());
    assert!(Image::from_pixels(65536, 65536, vec![]).is_none());
    let img = Image::from_pixels(3, 2, vec![c; 6]).unwrap();
    assert_eq!(img.width(), 3);
    assert_eq!(img.height(), 2);
    assert_eq!(img.pixels(), &vec![c; 6]);
    assert_eq!(img.path, None);
    assert!(Image::from_pixels(0, 0, vec![]).is_some());
}

#[test]
fn lab_distances_are_the_bit_patterns_of_the_squared_distances() {
    let palette = vec![
        lab::Lab::from_rgb(&[0, 0, 0]),
        lab::Lab::from_rgb(&[255, 255, 255]),
        lab::Lab::from_rgb(&[10, 200, 30]),
    ];
    let to = lab::Lab::from_rgb(&[12, 190, 40]);
    let expected: Vec<u32> = palette.iter().map(|p| p.squared_distance(&to).to_bits()).collect();
    let found = engiffen::naive::lab_distances(&palette, &to);
    assert_eq!(found, expected);
    assert_eq!(engiffen::naive::closest_index(&found), 2);
    assert_eq!(engiffen::naive::lab_distances(&palette, &palette[1])[1], 0);
    assert_eq!(engiffen::naive::lab_distances(&vec![], &to), Vec::<u32>::new());
}

#[test]
fn palettize_ranked_takes_the_first_smallest_distance() {
    let mut pixels = Vec::new();
    for k in 0..258usize {
        let times = if k < 256 { 2 } else { 1 };
        for _ in 0..times {
            pixels.push(Color::new((k % 256) as u8, (k / 256) as u8, 9, 255));
        }
    }
    let imgs = vec![Image::from_pixels(pixels.len() as u32, 1, pixels).unwrap()];
    let tally = tally_colors(&imgs);
    let order = frequency_order(&tally.counts);
    let mut first_row = vec![50u32; 256];
    first_row[200] = 7;
    first_row[90] = 7;
    first_row[91] = 8;
    let mut second_row = vec![u32::MAX; 256];
    second_row[255] = 0;
    let (palette, images, transparency) =
        engiffen::naive::palettize_ranked(&imgs, &tally, &order, &vec![first_row, second_row]);
    assert_eq!(palette.len(), 768);
    assert_eq!(transparency, None);
    for k in 0..256usize {
        assert_eq!(&palette[3 * k..3 * k + 3], &[k as u8, 0, 9]);
        assert_eq!(images[0][2 * k], k as u8);
        assert_eq!(images[0][2 * k + 1], k as u8);
    }
    assert_eq!(images[0][512], 90);
    assert_eq!(images[0][513], 255);
}

#[test]
fn palettize_ranked_needs_no_distances_for_a_small_palette() {
    let a = Color::new(9, 8, 7, 255);
    let b = Color::new(1, 2, 3, 255);
    let imgs = vec![Image::from_pixels(3, 1, vec![a, b, b]).unwrap()];
    let tally = tally_colors(&imgs);
    let order = frequency_order(&tally.counts);
    let (palette, images, transparency) =
        engiffen::naive::palettize_ranked(&imgs, &tally, &order, &vec![]);
    assert_eq!(palette, vec![1, 2, 3, 9, 8, 7]);
    assert_eq!(images, vec![vec![1u8, 0, 0]]);
    assert_eq!(transparency, None);
}
