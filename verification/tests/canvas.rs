use smartstitch::canvas::Canvas;
use smartstitch::models::{DetectorType, FillColor, StitchSettings};
use smartstitch::seam::{find_cut_line, is_clean_row, threshold_of};

fn from_rows(width: u32, rows: &[Vec<[u8; 4]>]) -> Canvas {
    let mut data = Vec::new();
    for row in rows {
        assert_eq!(row.len(), width as usize);
        for px in row {
            data.extend_from_slice(px);
        }
    }
    Canvas::from_raw(width, rows.len() as u32, data).unwrap()
}

fn flat_row(width: u32, level: u8) -> Vec<[u8; 4]> {
    vec![[level, level, level, 255]; width as usize]
}

fn busy_row(width: u32) -> Vec<[u8; 4]> {
    (0..width).map(|x| if x % 2 == 0 { [0, 0, 0, 255] } else { [255, 255, 255, 255] }).collect()
}

fn smart(sensitivity: u8, step: u32, margin: u32) -> StitchSettings {
    let mut s = StitchSettings::default();
    s.detector_type = DetectorType::Smart.code();
    s.sensitivity = sensitivity;
    s.scan_step = step;
    s.ignorable_margin = margin;
    s
}

fn column(busy: &[u32], height: u32) -> Canvas {
    let rows: Vec<Vec<[u8; 4]>> =
        (0..height).map(|y| if busy.contains(&y) { busy_row(6) } else { flat_row(6, 80) }).collect();
    from_rows(6, &rows)
}

fn all_busy_but(clean: &[u32], height: u32) -> Canvas {
    let rows: Vec<Vec<[u8; 4]>> =
        (0..height).map(|y| if clean.contains(&y) { flat_row(6, 80) } else { busy_row(6) }).collect();
    from_rows(6, &rows)
}

#[test]
fn filled_canvas_has_the_fill_colour() {
    let white = Canvas::filled(3, 2, FillColor::White);
    assert_eq!((white.width(), white.height()), (3, 2));
    assert_eq!(white.as_raw(), &vec![255u8; 24]);
    let black = Canvas::filled(2, 1, FillColor::Black);
    assert_eq!(black.into_raw(), vec![0, 0, 0, 255, 0, 0, 0, 255]);
    assert_eq!(FillColor::Black.rgba(), [0, 0, 0, 255]);
    assert_eq!(FillColor::White.rgba(), [255, 255, 255, 255]);
}

#[test]
fn from_raw_wants_enough_bytes() {
    assert!(Canvas::from_raw(2, 2, vec![0; 15]).is_none());
    let exact = Canvas::from_raw(2, 2, vec![7; 16]).unwrap();
    assert_eq!(exact.as_raw().len(), 16);
    let longer = Canvas::from_raw(1, 1, vec![1, 2, 3, 4, 5, 6]).unwrap();
    assert_eq!(longer.into_raw(), vec![1, 2, 3, 4]);
    let none = Canvas::from_raw(0, 5, vec![]).unwrap();
    assert_eq!((none.width(), none.height()), (0, 5));
}

#[test]
fn channel_and_gray_read_one_pixel() {
    let c = from_rows(2, &[vec![[1, 2, 3, 4], [10, 20, 31, 40]], vec![[5, 6, 7, 8], [255, 255, 254, 9]]]);
    assert_eq!(c.channel(1, 0, 2), 31);
    assert_eq!(c.channel(0, 1, 3), 8);
    assert_eq!(c.gray(0, 0), 2);
    assert_eq!(c.gray(1, 0), 20);
    assert_eq!(c.gray(1, 1), 254);
}

#[test]
fn split_rows_cuts_below_the_given_row() {
    let c = from_rows(1, &[vec![[1, 1, 1, 255]], vec![[2, 2, 2, 255]], vec![[3, 3, 3, 255]]]);
    let (upper, lower) = c.split_rows(1);
    assert_eq!((upper.width(), upper.height()), (1, 1));
    assert_eq!(upper.into_raw(), vec![1, 1, 1, 255]);
    assert_eq!(lower.height(), 2);
    assert_eq!(lower.into_raw(), vec![2, 2, 2, 255, 3, 3, 3, 255]);
    let (none, all) = Canvas::filled(2, 2, FillColor::Black).split_rows(0);
    assert_eq!(none.height(), 0);
    assert_eq!(all.height(), 2);
}

#[test]
fn stack_puts_the_image_below() {
    let top = from_rows(3, &[vec![[1, 1, 1, 255], [2, 2, 2, 255], [3, 3, 3, 255]]]);
    let image = from_rows(1, &[vec![[9, 8, 7, 255]], vec![[6, 5, 4, 255]]]);
    let out = top.stack(&image, 1, FillColor::White).unwrap();
    assert_eq!((out.width(), out.height()), (3, 3));
    assert_eq!(
        out.into_raw(),
        vec![
            1, 1, 1, 255, 2, 2, 2, 255, 3, 3, 3, 255, //
            255, 255, 255, 255, 9, 8, 7, 255, 255, 255, 255, 255, //
            255, 255, 255, 255, 6, 5, 4, 255, 255, 255, 255, 255,
        ]
    );
}

#[test]
fn stack_copies_transparent_pixels_as_they_are() {
    let top = from_rows(2, &[vec![[9, 9, 9, 0], [8, 8, 8, 128]]]);
    let image = from_rows(2, &[vec![[200, 100, 50, 0], [200, 100, 50, 77]]]);
    let out = top.stack(&image, 0, FillColor::White).unwrap();
    assert_eq!(
        out.into_raw(),
        vec![9, 9, 9, 0, 8, 8, 8, 128, 200, 100, 50, 0, 200, 100, 50, 77]
    );
}

#[test]
fn stack_leaves_out_what_is_too_wide() {
    let top = Canvas::filled(2, 1, FillColor::Black);
    let image = from_rows(3, &[vec![[1, 1, 1, 255], [2, 2, 2, 255], [3, 3, 3, 255]]]);
    let out = top.stack(&image, 1, FillColor::Black).unwrap();
    assert_eq!((out.width(), out.height()), (2, 2));
    assert_eq!(out.into_raw(), vec![0, 0, 0, 255, 0, 0, 0, 255, 0, 0, 0, 255, 1, 1, 1, 255]);
}

#[test]
fn stack_refuses_too_many_rows() {
    let top = Canvas::filled(0, u32::MAX, FillColor::Black);
    assert!(top.stack(&Canvas::filled(0, 1, FillColor::Black), 0, FillColor::Black).is_none());
    assert!(top.stack(&Canvas::filled(0, 0, FillColor::Black), 0, FillColor::Black).is_some());
}

#[test]
fn threshold_follows_the_sensitivity() {
    assert_eq!(threshold_of(0), 255);
    assert_eq!(threshold_of(100), 0);
    assert_eq!(threshold_of(90), 25);
    assert_eq!(threshold_of(80), 51);
    assert_eq!(threshold_of(50), 127);
}

#[test]
fn clean_rows_are_told_from_busy_ones() {
    let c = from_rows(
        4,
        &[
            flat_row(4, 10),
            vec![[0, 0, 0, 255], [30, 30, 30, 255], [60, 60, 60, 255], [90, 90, 90, 255]],
            vec![[255, 0, 0, 255], [9, 9, 9, 255], [9, 9, 9, 255], [0, 0, 255, 255]],
        ],
    );
    assert!(is_clean_row(&c, 0, 0, 0));
    assert!(!is_clean_row(&c, 1, 0, 29));
    assert!(is_clean_row(&c, 1, 0, 30));
    assert!(!is_clean_row(&c, 2, 0, 50));
    assert!(is_clean_row(&c, 2, 1, 0));
    // a margin of half the width leaves nothing to test
    assert!(is_clean_row(&c, 1, 2, 0));
    // a margin as wide as the picture is ignored
    assert!(!is_clean_row(&c, 1, 4, 0));
    assert!(!is_clean_row(&c, 1, 9, 29));
}

#[test]
fn direct_split_cuts_at_the_target() {
    let c = column(&[], 30);
    let mut s = smart(90, 5, 0);
    s.detector_type = 1;
    assert_eq!(find_cut_line(&c, 0, 10, &s), 10);
    assert_eq!(find_cut_line(&c, 0, 29, &s), 29);
    assert_eq!(find_cut_line(&c, 0, 30, &s), 30);
    assert_eq!(find_cut_line(&c, 0, 45, &s), 30);
    assert_eq!(find_cut_line(&c, 12, 10, &s), 10);
    assert_eq!(find_cut_line(&c, 25, 10, &s), 5);
    assert_eq!(find_cut_line(&c, 30, 10, &s), 0);
}

#[test]
fn a_short_canvas_gives_what_is_left() {
    let c = column(&[0, 1, 2, 3, 4, 5, 6, 7], 8);
    assert_eq!(find_cut_line(&c, 0, 8, &smart(100, 1, 0)), 8);
    assert_eq!(find_cut_line(&c, 0, 20, &smart(100, 1, 0)), 8);
    assert_eq!(find_cut_line(&c, 3, 20, &smart(100, 1, 0)), 5);
}

#[test]
fn full_sensitivity_without_clean_rows_cuts_at_the_target() {
    let c = all_busy_but(&[], 40);
    assert_eq!(find_cut_line(&c, 0, 20, &smart(100, 1, 0)), 20);
    assert_eq!(find_cut_line(&c, 0, 20, &smart(100, 3, 1)), 20);
    assert_eq!(find_cut_line(&c, 5, 10, &smart(100, 7, 0)), 10);
}

#[test]
fn zero_sensitivity_cuts_at_the_target_line() {
    let c = all_busy_but(&[], 40);
    assert_eq!(find_cut_line(&c, 0, 20, &smart(0, 1, 0)), 20);
    assert_eq!(find_cut_line(&c, 0, 20, &smart(0, 4, 2)), 20);
    assert_eq!(find_cut_line(&c, 0, 60, &smart(0, 4, 2)), 40);
}

#[test]
fn the_search_goes_up_first() {
    // rows 17 and 22 are clean, the target line is row 20
    let c = all_busy_but(&[17, 22], 40);
    assert_eq!(find_cut_line(&c, 0, 20, &smart(100, 1, 0)), 17);
    // with a stride of 2 the rows 20, 18, 16, .. and then 22 are looked at
    assert_eq!(find_cut_line(&c, 0, 20, &smart(100, 2, 0)), 22);
}

#[test]
fn the_search_up_ends_after_four_tenths_of_the_target() {
    // four tenths of 20 are 8 rows: the rows 20 down to 12 are looked at
    let c = all_busy_but(&[12], 40);
    assert_eq!(find_cut_line(&c, 0, 20, &smart(100, 1, 0)), 12);
    let c = all_busy_but(&[11], 40);
    assert_eq!(find_cut_line(&c, 0, 20, &smart(100, 1, 0)), 20);
    let c = all_busy_but(&[10], 40);
    assert_eq!(find_cut_line(&c, 0, 20, &smart(100, 1, 0)), 20);
    // a stride of 5 looks at the rows 20 and 15
    let c = all_busy_but(&[15], 40);
    assert_eq!(find_cut_line(&c, 0, 20, &smart(100, 5, 0)), 15);
    let c = all_busy_but(&[10], 40);
    assert_eq!(find_cut_line(&c, 0, 20, &smart(100, 5, 0)), 20);
}

#[test]
fn a_clean_row_beyond_the_limit_is_not_found() {
    let rows: Vec<Vec<[u8; 4]>> = (0..40)
        .map(|y| {
            if y == 10 {
                vec![[255, 255, 255, 255], [255, 255, 255, 255]]
            } else {
                vec![[0, 0, 0, 255], [255, 255, 255, 255]]
            }
        })
        .collect();
    let c = from_rows(2, &rows);
    assert_eq!(find_cut_line(&c, 0, 20, &smart(100, 1, 0)), 20);
}

#[test]
fn the_search_down_ends_after_half_the_target() {
    let c = all_busy_but(&[30], 40);
    assert_eq!(find_cut_line(&c, 0, 20, &smart(100, 1, 0)), 30);
    let c = all_busy_but(&[31], 40);
    assert_eq!(find_cut_line(&c, 0, 20, &smart(100, 1, 0)), 20);
    let c = all_busy_but(&[24], 25);
    assert_eq!(find_cut_line(&c, 0, 20, &smart(100, 4, 0)), 24);
    let c = all_busy_but(&[24], 24);
    assert_eq!(find_cut_line(&c, 0, 20, &smart(100, 4, 0)), 20);
}

#[test]
fn rows_beyond_the_limits_are_not_looked_at() {
    // only row 0 is clean; a stride of 10 reaches it from line 10
    let c = all_busy_but(&[0], 40);
    assert_eq!(find_cut_line(&c, 0, 10, &smart(100, 10, 0)), 10);
    let c = all_busy_but(&[0, 20], 40);
    assert_eq!(find_cut_line(&c, 0, 10, &smart(100, 10, 0)), 10);
    let c = all_busy_but(&[0, 15], 40);
    assert_eq!(find_cut_line(&c, 0, 10, &smart(100, 5, 0)), 5 + 10);
}

#[test]
fn margins_hide_the_edges_from_the_search() {
    let rows: Vec<Vec<[u8; 4]>> = (0..30)
        .map(|_| {
            let mut row = flat_row(8, 40);
            row[0] = [255, 255, 255, 255];
            row[7] = [0, 0, 0, 255];
            row
        })
        .collect();
    let c = from_rows(8, &rows);
    assert_eq!(find_cut_line(&c, 0, 10, &smart(100, 1, 1)), 10);
    let mut rows = rows;
    for y in 8..=10 {
        rows[y][3] = [0, 0, 0, 255];
    }
    let c = from_rows(8, &rows);
    assert_eq!(find_cut_line(&c, 0, 10, &smart(100, 1, 1)), 7);
}
