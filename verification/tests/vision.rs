use std::collections::HashMap;

use psx::frame::{convert_framebuffer_to_rgb_image, count_set_pixels, gray_to_rgb, GrayFrame, Rgb, RgbFrame};
use psx::vision::{
    apply_thresholds, count_life_bar, crop_frame, draw_border, draw_centroids, draw_disjoint_chars,
    draw_framed_disjoint_chars, draw_framed_overlapped_chars, draw_visualized_life_bar, draw_x_limits,
    find_centroids, find_corners, get_histogram, get_x_limits, grow_region, identify_fighters_by_side,
    key_of, life_bar_counts, merge_chars_masks, prepare_frame, segment_frame,
    segment_overlapped_chars_by_histogram, squared_difference, squared_difference_in_x_limits,
    swap_if_needed, update_histograms, update_probabilities, visualize_life_bars, Character,
    CROP_HEIGHT, CROP_WIDTH, LIFE_BAR_Y, PLAYER_1_LIFE_BAR_X, PLAYER_2_LIFE_BAR_X,
};

const RED: Rgb = Rgb { r: 255, g: 0, b: 0 };
const GREEN: Rgb = Rgb { r: 0, g: 255, b: 0 };
const BLUE: Rgb = Rgb { r: 0, g: 0, b: 255 };
const BLACK: Rgb = Rgb { r: 0, g: 0, b: 0 };
const PURPLE: Rgb = Rgb { r: 255, g: 0, b: 255 };

fn rgb(r: u8, g: u8, b: u8) -> Rgb {
    Rgb { r, g, b }
}

fn gray_from_rows(rows: &[&[u8]]) -> GrayFrame {
    let height = rows.len() as u32;
    let width = rows[0].len() as u32;
    let pixels = rows.iter().flat_map(|row| row.iter().copied()).collect();
    GrayFrame { width, height, pixels }
}

fn gray_rows(img: &GrayFrame) -> Vec<Vec<u8>> {
    (0..img.height)
        .map(|y| (0..img.width).map(|x| img.get_pixel(x, y)).collect())
        .collect()
}

fn filled(width: u32, height: u32, color: Rgb) -> RgbFrame {
    RgbFrame { width, height, pixels: vec![color; (width * height) as usize] }
}

fn character(rows: &[&[u8]], corner1: (u32, u32), corner2: (u32, u32)) -> Character {
    Character::new(gray_from_rows(rows), corner1, corner2)
}

#[test]
fn frames_read_back_what_was_written() {
    let mut img = RgbFrame::new(3, 2);
    assert_eq!(img.pixels.len(), 6);
    assert_eq!(img.get_pixel(2, 1), BLACK);
    img.put_pixel(2, 1, RED);
    assert_eq!(img.get_pixel(2, 1), RED);
    assert_eq!(img.pixels[5], RED);
    assert_eq!(img.get_pixel(1, 1), BLACK);
    let mut gray = GrayFrame::new(2, 3);
    gray.put_pixel(1, 2, 9);
    assert_eq!(gray.pixels, vec![0, 0, 0, 0, 0, 9]);
    assert_eq!(gray.len(), 6);
    let color = gray_to_rgb(&gray);
    assert_eq!(color.get_pixel(1, 2), rgb(9, 9, 9));
}

#[test]
fn thresholds_keep_values_outside_the_range() {
    let mut img = filled(3, 1, rgb(10, 100, 200));
    img.put_pixel(1, 0, rgb(60, 20, 255));
    let out = apply_thresholds(&img, [50, 150], [50, 150], [50, 150]);
    assert_eq!(out.width, 3);
    assert_eq!(out.get_pixel(0, 0), rgb(10, 0, 200));
    assert_eq!(out.get_pixel(1, 0), rgb(0, 20, 255));
    // The last column stays black.
    assert_eq!(out.get_pixel(2, 0), BLACK);
    // Thresholding again changes nothing more.
    let again = apply_thresholds(&out, [50, 150], [50, 150], [50, 150]);
    assert_eq!(again.get_pixel(0, 0), out.get_pixel(0, 0));
    assert_eq!(again.get_pixel(1, 0), out.get_pixel(1, 0));
}

#[test]
fn border_and_x_limits_are_painted() {
    let mut img = filled(4, 3, rgb(1, 2, 3));
    draw_border(&mut img);
    let purple = rgb(128, 0, 128);
    for x in 0..4 {
        assert_eq!(img.get_pixel(x, 0), purple);
        assert_eq!(img.get_pixel(x, 2), purple);
    }
    assert_eq!(img.get_pixel(0, 1), purple);
    assert_eq!(img.get_pixel(3, 1), purple);
    assert_eq!(img.get_pixel(1, 1), rgb(1, 2, 3));
    let mut img = filled(4, 2, BLACK);
    draw_x_limits(&mut img, (1, 3));
    assert_eq!(img.get_pixel(1, 0), rgb(0, 128, 0));
    assert_eq!(img.get_pixel(3, 1), rgb(0, 128, 0));
    assert_eq!(img.get_pixel(2, 1), BLACK);
}

#[test]
fn x_limits_span_the_lit_columns() {
    let mut img = filled(5, 2, BLACK);
    assert_eq!(get_x_limits(&img), (5, 0));
    img.put_pixel(1, 1, rgb(0, 0, 1));
    img.put_pixel(3, 0, rgb(4, 0, 0));
    assert_eq!(get_x_limits(&img), (1, 3));
}

#[test]
fn fighters_are_marked_by_side() {
    let mask = gray_from_rows(&[&[1, 1, 0, 1, 1], &[0, 1, 1, 1, 0], &[9, 9, 9, 9, 9]]);
    let out = identify_fighters_by_side(&mask, &(0, 0), &(4, 2));
    // half = 2: columns 0 and 1 are red, 2 and 3 blue; column 4 and row 2
    // lie outside the box.
    assert_eq!(out.get_pixel(0, 0), RED);
    assert_eq!(out.get_pixel(1, 1), RED);
    assert_eq!(out.get_pixel(2, 1), BLUE);
    assert_eq!(out.get_pixel(3, 0), BLUE);
    assert_eq!(out.get_pixel(2, 0), BLACK);
    assert_eq!(out.get_pixel(4, 0), BLACK);
    assert_eq!(out.get_pixel(0, 2), BLACK);
}

#[test]
fn merged_masks_hold_both() {
    let a = gray_from_rows(&[&[0, 5], &[0, 0]]);
    let b = gray_from_rows(&[&[0, 0], &[7, 0]]);
    let ab = merge_chars_masks(&a, &b);
    let ba = merge_chars_masks(&b, &a);
    assert_eq!(gray_rows(&ab), vec![vec![0, 255], vec![255, 0]]);
    assert_eq!(gray_rows(&ab), gray_rows(&ba));
}

#[test]
fn corners_bound_the_set_pixels() {
    let mask = gray_from_rows(&[&[0, 0, 0, 0], &[0, 1, 0, 0], &[0, 0, 0, 3]]);
    assert_eq!(find_corners(&mask), ((1, 1), (3, 2)));
    let empty = GrayFrame::new(4, 3);
    assert_eq!(find_corners(&empty), ((3, 2), (0, 0)));
}

#[test]
fn centroids_are_the_densest_column_and_row_of_each_half() {
    let mask = gray_from_rows(&[
        &[0, 0, 0, 0, 0, 0, 0, 0],
        &[1, 1, 0, 0, 0, 1, 1, 0],
        &[0, 1, 0, 0, 0, 1, 1, 1],
        &[0, 1, 0, 0, 0, 0, 1, 0],
        &[0, 0, 0, 0, 0, 0, 0, 0],
    ]);
    // Box (0, 0) to (8, 4); half = 4.
    let (c1, c2) = find_centroids(&mask, (0, 0), (8, 4));
    assert_eq!(c1, (1, 1));
    assert_eq!(c2, (6, 2));
    // A half without set pixels gives 0.
    let (c1, c2) = find_centroids(&mask, (2, 0), (4, 4));
    assert_eq!(c1, (0, 0));
    assert_eq!(c2, (0, 0));
}

#[test]
fn centroid_lines_cross_the_box() {
    let mut img = filled(6, 5, BLACK);
    draw_centroids(&mut img, (0, 0), (5, 4), (1, 2), (3, 1));
    // The centroid lines cover the box frame where they cross it.
    assert_eq!(img.get_pixel(1, 0), RED);
    assert_eq!(img.get_pixel(3, 3), BLUE);
    assert_eq!(img.get_pixel(0, 2), RED);
    assert_eq!(img.get_pixel(4, 1), BLUE);
    // Where the two lines cross, the later blue one stays.
    assert_eq!(img.get_pixel(3, 2), BLUE);
    assert_eq!(img.get_pixel(1, 1), RED);
    // Frame pixels away from the lines are green.
    assert_eq!(img.get_pixel(2, 0), GREEN);
    assert_eq!(img.get_pixel(5, 3), GREEN);
    assert_eq!(img.get_pixel(0, 3), GREEN);
    // The right edge of the frame is drawn at corner2.0.
    assert_eq!(img.get_pixel(5, 0), GREEN);
    assert_eq!(img.get_pixel(2, 3), BLACK);
}

#[test]
fn region_grows_through_touching_set_pixels() {
    let mask = gray_from_rows(&[
        &[1, 1, 0, 0, 0, 1],
        &[0, 1, 0, 0, 0, 1],
        &[0, 0, 1, 0, 0, 0],
        &[0, 0, 0, 0, 1, 1],
        &[1, 0, 0, 0, 0, 0],
    ]);
    let ch = grow_region(&mask, &(0, 0), &(0, 0), &(6, 5));
    assert_eq!(
        gray_rows(&ch.mask),
        vec![
            vec![255, 255, 0, 0, 0, 0],
            vec![0, 255, 0, 0, 0, 0],
            vec![0, 0, 255, 0, 0, 0],
            vec![0, 0, 0, 0, 0, 0],
            vec![0, 0, 0, 0, 0, 0],
        ]
    );
    assert_eq!(ch.corner1, (0, 0));
    assert_eq!(ch.corner2, (2, 2));
    // The box is half-open: column 5 lies outside (0, 0)-(5, 5).
    let ch = grow_region(&mask, &(4, 3), &(0, 0), &(5, 5));
    assert_eq!(ch.corner1, (4, 3));
    assert_eq!(ch.corner2, (4, 3));
    // The start pixel belongs to the region even when it is not set.
    let ch = grow_region(&mask, &(3, 2), &(0, 0), &(6, 5));
    assert_eq!(ch.mask.get_pixel(3, 2), 255);
    assert_eq!(ch.mask.get_pixel(2, 2), 255);
    assert_eq!(ch.mask.get_pixel(4, 3), 255);
    assert_eq!(ch.mask.get_pixel(5, 3), 255);
    assert_eq!(ch.mask.get_pixel(0, 0), 255);
    assert_eq!(ch.mask.get_pixel(0, 4), 0);
    assert_eq!(ch.corner1, (0, 0));
    assert_eq!(ch.corner2, (5, 3));
    // An image without pixels gives an empty region.
    let empty = GrayFrame { width: 0, height: 3, pixels: vec![] };
    let ch = grow_region(&empty, &(0, 0), &(0, 0), &(0, 0));
    assert_eq!(ch.corner1, (0, 3));
    assert_eq!(ch.corner2, (0, 0));
}

#[test]
fn characters_are_drawn_apart_and_together() {
    let c1 = character(&[&[1, 0, 0, 0], &[0, 0, 0, 0], &[0, 0, 0, 0]], (0, 0), (1, 1));
    let c2 = character(&[&[1, 0, 0, 0], &[0, 0, 0, 0], &[0, 0, 0, 1]], (2, 1), (3, 2));
    let apart = draw_disjoint_chars(&c1, &c2);
    assert_eq!(apart.get_pixel(0, 0), BLUE);
    assert_eq!(apart.get_pixel(3, 2), BLUE);
    assert_eq!(apart.get_pixel(1, 1), BLACK);
    let c1b = character(&[&[1, 0, 0, 0], &[0, 0, 0, 0], &[0, 0, 0, 0]], (0, 0), (1, 1));
    let framed = draw_framed_disjoint_chars(&c1b, &c2);
    assert_eq!(framed.get_pixel(1, 0), RED);
    assert_eq!(framed.get_pixel(0, 1), RED);
    assert_eq!(framed.get_pixel(2, 1), BLUE);
    assert_eq!(framed.get_pixel(3, 2), BLUE);
    assert_eq!(framed.get_pixel(1, 2), BLACK);
    let together = draw_framed_overlapped_chars(&c1b, &c2);
    // The union box is (0, 0)-(3, 2).
    assert_eq!(together.get_pixel(0, 0), PURPLE);
    assert_eq!(together.get_pixel(2, 2), PURPLE);
    assert_eq!(together.get_pixel(3, 1), PURPLE);
    assert_eq!(together.get_pixel(1, 1), BLACK);
}

#[test]
fn life_bars_are_read_and_drawn() {
    let mut img = filled(PLAYER_2_LIFE_BAR_X[1], LIFE_BAR_Y + 3, BLACK);
    // Player 1: 10 columns of life, 5 of damage.
    for x in 20..30 {
        img.put_pixel(x, LIFE_BAR_Y, rgb(150, 150, 150));
    }
    for x in 30..35 {
        img.put_pixel(x, LIFE_BAR_Y, rgb(255, 255, 255));
    }
    // Luma 0.2126 * 255 = 54: life taken.
    img.put_pixel(250, LIFE_BAR_Y, rgb(255, 0, 0));
    // Luma (7152 * 200) / 10000 = 143: life remaining.
    img.put_pixel(251, LIFE_BAR_Y, rgb(0, 200, 0));
    let (p1, p2) = life_bar_counts(&img);
    assert_eq!((p1.life, p1.damage, p1.total), (10, 5, 152));
    assert_eq!((p2.life, p2.damage, p2.total), (1, 0, 152));
    let shown = visualize_life_bars(img);
    assert_eq!(shown.get_pixel(20, LIFE_BAR_Y - 3), GREEN);
    assert_eq!(shown.get_pixel(31, LIFE_BAR_Y + 2), RED);
    assert_eq!(shown.get_pixel(12, LIFE_BAR_Y), BLUE);
    assert_eq!(shown.get_pixel(251, LIFE_BAR_Y), GREEN);
    // Outside the bars the frame is grey.
    assert_eq!(shown.get_pixel(250, LIFE_BAR_Y - 4), BLACK);
    assert_eq!(shown.get_pixel(170, LIFE_BAR_Y), BLACK);
}

#[test]
fn a_life_bar_is_counted_from_its_grey_levels() {
    let levels: &[u8] = &[0, 100, 101, 200, 201, 255];
    let mut rows: Vec<Vec<u8>> = vec![vec![0; 6]; LIFE_BAR_Y as usize + 1];
    rows[LIFE_BAR_Y as usize] = levels.to_vec();
    let row_refs: Vec<&[u8]> = rows.iter().map(|r| r.as_slice()).collect();
    let gray = gray_from_rows(&row_refs);
    let count = count_life_bar(&gray, [0, 6]);
    assert_eq!((count.life, count.damage, count.total), (2, 2, 6));
    let mut color = gray_to_rgb(&GrayFrame::new(6, LIFE_BAR_Y + 3));
    draw_visualized_life_bar(&gray, &mut color, [1, 5]);
    assert_eq!(color.get_pixel(1, LIFE_BAR_Y), BLUE);
    assert_eq!(color.get_pixel(2, LIFE_BAR_Y + 2), GREEN);
    assert_eq!(color.get_pixel(4, LIFE_BAR_Y - 3), RED);
    assert_eq!(color.get_pixel(5, LIFE_BAR_Y), BLACK);
    assert_eq!(color.get_pixel(2, LIFE_BAR_Y - 4), BLACK);
}

#[test]
fn squared_differences_count_pixels_where_either_is_lit() {
    let mut a = filled(2, 2, BLACK);
    let mut b = filled(2, 2, BLACK);
    a.put_pixel(0, 0, rgb(10, 0, 0));
    b.put_pixel(0, 0, rgb(0, 3, 0));
    b.put_pixel(1, 1, rgb(1, 1, 1));
    let d = squared_difference(&a, &b);
    assert_eq!(d.sum, 100 + 9 + 3);
    assert_eq!(d.count, 2);
    let same = squared_difference(&b, &b);
    assert_eq!(same.sum, 0);
    assert_eq!(same.count, 2);
    let strip = squared_difference_in_x_limits(&a, &b, (0, 1), (1, 2));
    // Column 0 of a against column 1 of b: (10,0,0)-(0,0,0) and (0,0,0)-(1,1,1).
    assert_eq!(strip.sum, 100 + 3);
    assert_eq!(strip.count, 2);
}

#[test]
fn colour_tables_count_and_decide() {
    let mut frame = filled(3, 1, rgb(1, 2, 3));
    frame.put_pixel(2, 0, rgb(9, 9, 9));
    let c1 = character(&[&[1, 1, 0]], (0, 0), (1, 0));
    let c2 = character(&[&[0, 0, 1]], (2, 0), (2, 0));
    let mut h1: HashMap<u32, u64> = HashMap::new();
    let mut h2: HashMap<u32, u64> = HashMap::new();
    update_histograms(&c1, &c2, &frame, &mut h1, &mut h2);
    assert_eq!(key_of(rgb(1, 2, 3)), 0x010203);
    assert_eq!(h1.get(&0x010203), Some(&2));
    assert_eq!(h1.len(), 1);
    assert_eq!(h2.get(&0x090909), Some(&1));
    // Colour (1,2,3) is seen more often by the first table: no swap.
    h2.insert(0x010203, 1);
    let (first, _) = swap_if_needed(c1, c2, &h1, &h2, &frame);
    assert_eq!(first.corner1, (0, 0));
    // Now the second table prefers it: swap.
    h2.insert(0x010203, 5);
    let c1 = character(&[&[1, 1, 0]], (0, 0), (1, 0));
    let c2 = character(&[&[0, 0, 1]], (2, 0), (2, 0));
    let (first, second) = swap_if_needed(c1, c2, &h1, &h2, &frame);
    assert_eq!(first.corner1, (2, 0));
    assert_eq!(second.corner1, (0, 0));
    let mut probabilities: HashMap<u32, (u64, u64)> = HashMap::new();
    let c1 = character(&[&[1, 0, 0]], (0, 0), (0, 0));
    update_probabilities(&c1, &frame, &mut probabilities);
    assert_eq!(probabilities.get(&0x010203), Some(&(1, 2)));
    assert_eq!(probabilities.get(&0x090909), Some(&(0, 1)));
}

#[test]
fn overlapped_characters_split_by_colour_table() {
    let mut img = filled(4, 1, rgb(5, 5, 5));
    img.put_pixel(1, 0, rgb(6, 6, 6));
    img.put_pixel(2, 0, rgb(7, 7, 7));
    img.put_pixel(3, 0, BLACK);
    let mut h1: HashMap<u32, u64> = HashMap::new();
    let mut h2: HashMap<u32, u64> = HashMap::new();
    h1.insert(0x050505, 3);
    h2.insert(0x050505, 3);
    h1.insert(0x060606, 1);
    let out = segment_overlapped_chars_by_histogram(&img, &(0, 0), &(4, 1), &h1, &h2);
    // A tie goes to the second character.
    assert_eq!(out.get_pixel(0, 0), BLUE);
    // Only the first table knows (6,6,6).
    assert_eq!(out.get_pixel(1, 0), RED);
    // The first table does not know (7,7,7).
    assert_eq!(out.get_pixel(2, 0), BLUE);
    assert_eq!(out.get_pixel(3, 0), BLACK);
}

#[test]
fn histogram_counts_each_colour() {
    let mut img = filled(3, 1, rgb(1, 2, 3));
    img.put_pixel(0, 0, rgb(255, 255, 255));
    let h = get_histogram(&img);
    assert_eq!(h.len(), 1 << 24);
    assert_eq!(h[0x010203], 2);
    assert_eq!(h[0xffffff], 1);
    assert_eq!(h[0], 0);
    crop_frame(img);
}

#[test]
fn prepared_frame_is_cropped_thresholded_and_dilated() {
    let mut frame = filled(8, 110, BLACK);
    frame.put_pixel(3, 103, rgb(200, 200, 200));
    let prepared = prepare_frame(&frame, [0, 100], [0, 100], [0, 100], 1);
    assert!(CROP_WIDTH > 8 && CROP_HEIGHT > 10);
    assert_eq!(prepared.cropped_frame.width, 8);
    assert_eq!(prepared.cropped_frame.height, 10);
    assert_eq!(prepared.cropped_frame.get_pixel(3, 3), rgb(200, 200, 200));
    assert_eq!(prepared.contrast_frame.get_pixel(3, 3), rgb(200, 200, 200));
    let mask = &prepared.mask;
    assert_eq!(mask.get_pixel(3, 3), 255);
    assert_eq!(mask.get_pixel(2, 3), 255);
    assert_eq!(mask.get_pixel(3, 4), 255);
    assert_eq!(mask.get_pixel(2, 2), 0);
    assert_eq!(mask.get_pixel(5, 3), 0);
}

#[test]
fn frames_are_segmented_into_two_fighters() {
    let rows: &[&[u8]] = &[
        &[0, 0, 0, 0, 0, 0, 0, 0, 0, 0],
        &[0, 255, 255, 0, 0, 0, 0, 255, 255, 0],
        &[0, 255, 255, 0, 0, 0, 0, 255, 255, 0],
        &[0, 255, 255, 0, 0, 0, 0, 255, 255, 0],
        &[0, 0, 0, 0, 0, 0, 0, 0, 0, 0],
    ];
    let mask = gray_from_rows(rows);
    let mut cropped = filled(10, 5, BLACK);
    for y in 1..4 {
        for x in [1u32, 2] {
            cropped.put_pixel(x, y, rgb(100, 0, 0));
        }
        for x in [7u32, 8] {
            cropped.put_pixel(x, y, rgb(0, 0, 100));
        }
    }
    let masked = RgbFrame { width: 10, height: 5, pixels: cropped.pixels.clone() };
    let mut h1: HashMap<u32, u64> = HashMap::new();
    let mut h2: HashMap<u32, u64> = HashMap::new();
    let mut p1: HashMap<u32, (u64, u64)> = HashMap::new();
    let mut p2: HashMap<u32, (u64, u64)> = HashMap::new();
    let seg = segment_frame(&cropped, &mask, &masked, &mut h1, &mut h2, &mut p1, &mut p2, 1);
    assert_eq!((seg.corner1, seg.corner2), ((1, 1), (8, 3)));
    assert_eq!(seg.centroid1, (1, 1));
    assert_eq!(seg.centroid2, (7, 1));
    assert!(seg.disjoint);
    assert!(seg.histogram_segments.is_none());
    assert_eq!(seg.char1.corner1, (1, 1));
    assert_eq!(seg.char2.corner2, (7, 2));
    assert_eq!(seg.segmented_frame.get_pixel(2, 2), RED);
    assert_eq!(seg.segmented_frame.get_pixel(7, 1), BLUE);
    assert_eq!(seg.segmented_frame.get_pixel(5, 2), BLACK);
    assert_eq!(h1.get(&0x640000), Some(&4));
    assert_eq!(p1.get(&0x640000), Some(&(4, 6)));
    assert_eq!(p2.get(&0x000064), Some(&(2, 6)));
    assert_eq!(seg.centroids_hud.get_pixel(1, 2), RED);
    assert_eq!(seg.chars_hud.get_pixel(8, 3), BLACK);
}

#[test]
fn overlapping_fighters_are_split_by_colour_and_filtered() {
    let rows: &[&[u8]] = &[
        &[0, 0, 0, 0, 0, 0],
        &[0, 255, 255, 255, 255, 0],
        &[0, 255, 255, 255, 255, 0],
        &[0, 255, 255, 255, 255, 0],
        &[0, 0, 0, 0, 0, 0],
    ];
    let mask = gray_from_rows(rows);
    let mut masked = filled(6, 5, BLACK);
    for y in 1..4 {
        for x in 1..5 {
            let color = if x < 3 { rgb(100, 0, 0) } else { rgb(0, 0, 100) };
            masked.put_pixel(x, y, color);
        }
    }
    // One stray pixel of the second colour in the first fighter.
    masked.put_pixel(1, 2, rgb(0, 0, 100));
    let cropped = RgbFrame { width: 6, height: 5, pixels: masked.pixels.clone() };
    let mut h1: HashMap<u32, u64> = HashMap::new();
    let mut h2: HashMap<u32, u64> = HashMap::new();
    h1.insert(0x640000, 10);
    h2.insert(0x000064, 10);
    let mut p1: HashMap<u32, (u64, u64)> = HashMap::new();
    let mut p2: HashMap<u32, (u64, u64)> = HashMap::new();
    let seg = segment_frame(&cropped, &mask, &masked, &mut h1, &mut h2, &mut p1, &mut p2, 1);
    assert!(!seg.disjoint);
    let segments = seg.histogram_segments.as_ref().unwrap();
    assert_eq!(segments.get_pixel(2, 2), RED);
    assert_eq!(segments.get_pixel(1, 2), BLUE);
    // The median filter removes the stray pixel.
    assert_ne!(seg.segmented_frame.get_pixel(1, 2), BLUE);
    let raw: Vec<u8> = segments.pixels.iter().flat_map(|p| [p.r, p.g, p.b]).collect();
    let image = image::RgbImage::from_raw(6, 5, raw).unwrap();
    let filtered = imageproc::filter::median_filter(&image, 1, 1);
    let expected: Vec<Rgb> = filtered.pixels().map(|p| rgb(p[0], p[1], p[2])).collect();
    assert_eq!(seg.segmented_frame.pixels, expected);
    assert!(p1.is_empty());
    assert_eq!(h1.len(), 1);
    assert_eq!(seg.chars_hud.get_pixel(1, 1), PURPLE);
}

#[test]
fn framebuffer_bytes_become_pixels() {
    let bytes: Vec<u8> = (0u8..18).collect();
    let img = convert_framebuffer_to_rgb_image(&bytes, 3, 2);
    assert_eq!(img.get_pixel(0, 0), rgb(0, 1, 2));
    assert_eq!(img.get_pixel(2, 0), rgb(6, 7, 8));
    assert_eq!(img.get_pixel(1, 1), rgb(12, 13, 14));
    let gray = gray_from_rows(&[&[0, 3, 0], &[255, 0, 1]]);
    assert_eq!(count_set_pixels(&gray), 3);
}

#[test]
fn squared_difference_is_symmetric_and_keys_are_distinct() {
    let mut a = filled(3, 2, rgb(1, 2, 3));
    let mut b = filled(3, 2, BLACK);
    a.put_pixel(2, 1, BLACK);
    b.put_pixel(0, 1, rgb(9, 0, 4));
    let ab = squared_difference(&a, &b);
    let ba = squared_difference(&b, &a);
    assert_eq!((ab.sum, ab.count), (ba.sum, ba.count));
    assert_eq!(ab.count, 5);
    assert_ne!(key_of(rgb(0, 1, 0)), key_of(rgb(0, 0, 1)));
    assert_ne!(key_of(rgb(1, 0, 0)), key_of(rgb(0, 255, 255)));
}
