use smartstitch::canvas::Canvas;
use smartstitch::models::{
    ConfigError, FillColor, RunError, StitchError, StitchSettings, WidthMode,
};
use smartstitch::stitcher::{stitch_images, stitch_normalized, Stitcher};
use smartstitch::width::{needs_resize, normalize, scaled_height, target_width, x_offset};

fn direct_settings(split_height: u32, mode: WidthMode) -> StitchSettings {
    let mut s = StitchSettings::default();
    s.split_height = split_height;
    s.detector_type = 1;
    s.width_enforce_type = mode.code();
    s
}

fn plain(width: u32, height: u32, rgba: [u8; 4]) -> Canvas {
    let mut data = Vec::new();
    for _ in 0..(width as usize * height as usize) {
        data.extend_from_slice(&rgba);
    }
    Canvas::from_raw(width, height, data).unwrap()
}

fn heights(pages: &[Canvas]) -> Vec<u32> {
    pages.iter().map(|p| p.height()).collect()
}

#[test]
fn three_images_make_three_pages() {
    let images = vec![
        Canvas::filled(800, 1000, FillColor::White),
        Canvas::filled(800, 1200, FillColor::White),
        Canvas::filled(800, 900, FillColor::White),
    ];
    let settings = direct_settings(1200, WidthMode::AutoUniform);
    let width = target_width(WidthMode::AutoUniform, 800, &vec![], settings.custom_width);
    assert_eq!(width, 800);
    let pages = stitch_images(settings, width, &images).unwrap();
    assert_eq!(heights(&pages), vec![1200, 1200, 700]);
    assert!(pages.iter().all(|p| p.width() == 800));
}

#[test]
fn direct_split_pages_have_the_split_height() {
    let images = vec![plain(4, 7, [1, 2, 3, 255]), plain(4, 30, [9, 9, 9, 255]), plain(4, 5, [0, 0, 0, 255])];
    let pages = stitch_normalized(direct_settings(10, WidthMode::AutoUniform), 4, &images).unwrap();
    assert_eq!(heights(&pages), vec![10, 10, 10, 10, 2]);
}

#[test]
fn pages_are_as_tall_as_the_images() {
    let mut settings = StitchSettings::default();
    settings.split_height = 16;
    settings.scan_step = 1;
    settings.ignorable_margin = 0;
    settings.sensitivity = 100;
    let images = vec![plain(3, 25, [10, 10, 10, 255]), plain(3, 40, [200, 0, 0, 255]), plain(3, 11, [0, 0, 0, 255])];
    let pages = stitch_normalized(settings, 3, &images).unwrap();
    let total: u32 = pages.iter().map(|p| p.height()).sum();
    assert_eq!(total, 25 + 40 + 11);
    assert!(pages.iter().all(|p| p.height() > 0 && p.height() <= 24));
}

#[test]
fn an_exact_multiple_leaves_no_last_page() {
    let images = vec![plain(2, 20, [5, 5, 5, 255])];
    let pages = stitch_normalized(direct_settings(10, WidthMode::AutoUniform), 2, &images).unwrap();
    assert_eq!(heights(&pages), vec![10, 10]);
}

#[test]
fn no_images_make_no_pages() {
    let pages = stitch_images(direct_settings(10, WidthMode::AutoUniform), 2, &vec![]).unwrap();
    assert!(pages.is_empty());
}

#[test]
fn custom_width_gives_every_page_that_width() {
    let mut settings = direct_settings(6, WidthMode::Custom);
    settings.custom_width = 8;
    let images = vec![plain(4, 5, [50, 60, 70, 255]), plain(16, 10, [1, 1, 1, 255]), plain(8, 3, [2, 2, 2, 255])];
    let width = target_width(WidthMode::Custom, 4, &vec![4, 16, 8], 8);
    assert_eq!(width, 8);
    let pages = stitch_images(settings, width, &images).unwrap();
    assert!(!pages.is_empty());
    assert!(pages.iter().all(|p| p.width() == 8));
    // 4x5 becomes 8x10, 16x10 becomes 8x5, 8x3 stays: 18 rows in all
    assert_eq!(heights(&pages), vec![6, 6, 6]);
}

#[test]
fn scaling_changes_the_picture() {
    let image = plain(4, 6, [10, 20, 30, 255]);
    let scaled = normalize(image, WidthMode::AutoUniform, 2).unwrap();
    assert_eq!((scaled.width(), scaled.height()), (2, 3));
    assert_eq!(scaled.as_raw().len(), 2 * 3 * 4);
    assert_eq!(scaled.channel(1, 2, 0), 10);
    assert_eq!(scaled.channel(1, 2, 3), 255);
}

#[test]
fn scaling_gives_the_width_asked_for_and_rounds_the_height_down() {
    let scaled = normalize(plain(3, 10, [7, 7, 7, 255]), WidthMode::Custom, 2).unwrap();
    assert_eq!((scaled.width(), scaled.height()), (2, 6));
    let wider = normalize(plain(3, 10, [7, 7, 7, 255]), WidthMode::MatchMin, 7).unwrap();
    assert_eq!((wider.width(), wider.height()), (7, 23));
    let flat = normalize(plain(10, 1, [7, 7, 7, 255]), WidthMode::AutoUniform, 2).unwrap();
    assert_eq!((flat.width(), flat.height()), (2, 0));
    assert!(flat.as_raw().is_empty());
    let none = normalize(plain(4, 6, [7, 7, 7, 255]), WidthMode::Custom, 0).unwrap();
    assert_eq!((none.width(), none.height()), (0, 0));
    let from_nothing = normalize(Canvas::filled(0, 5, FillColor::Black), WidthMode::Custom, 3).unwrap();
    assert_eq!((from_nothing.width(), from_nothing.height()), (3, 0));
    let from_no_rows = normalize(Canvas::filled(5, 0, FillColor::Black), WidthMode::Custom, 3).unwrap();
    assert_eq!((from_no_rows.width(), from_no_rows.height()), (3, 0));
}

#[test]
fn an_image_of_the_right_width_is_not_scaled() {
    let image = plain(4, 6, [10, 20, 30, 255]);
    let same = normalize(image, WidthMode::AutoUniform, 4).unwrap();
    assert_eq!((same.width(), same.height()), (4, 6));
    let kept = normalize(plain(4, 6, [1, 1, 1, 255]), WidthMode::NoEnforcement, 9).unwrap();
    assert_eq!(kept.width(), 4);
    let wide = normalize(plain(4, 6, [1, 1, 1, 255]), WidthMode::MatchMax, 9).unwrap();
    assert_eq!(wide.width(), 4);
}

#[test]
fn needs_resize_by_mode() {
    assert!(needs_resize(WidthMode::AutoUniform, 4, 5));
    assert!(needs_resize(WidthMode::MatchMin, 4, 5));
    assert!(needs_resize(WidthMode::Custom, 4, 5));
    assert!(!needs_resize(WidthMode::Custom, 5, 5));
    assert!(!needs_resize(WidthMode::NoEnforcement, 4, 5));
    assert!(!needs_resize(WidthMode::MatchMax, 4, 5));
}

#[test]
fn scaled_height_rounds_down() {
    assert_eq!(scaled_height(1000, 800, 400), 500);
    assert_eq!(scaled_height(10, 3, 2), 6);
    assert_eq!(scaled_height(1, 1000, 10), 0);
    assert_eq!(scaled_height(7, 0, 10), 0);
    assert_eq!(scaled_height(u32::MAX, 1, 2), u32::MAX);
}

#[test]
fn target_width_by_mode() {
    let widths = vec![700, 640, 900, 800];
    assert_eq!(target_width(WidthMode::NoEnforcement, 700, &widths, 720), 700);
    assert_eq!(target_width(WidthMode::AutoUniform, 700, &widths, 720), 700);
    assert_eq!(target_width(WidthMode::MatchMin, 700, &widths, 720), 640);
    assert_eq!(target_width(WidthMode::MatchMax, 700, &widths, 720), 900);
    assert_eq!(target_width(WidthMode::Custom, 700, &widths, 720), 720);
    assert_eq!(target_width(WidthMode::MatchMin, 700, &vec![], 720), 700);
    assert_eq!(target_width(WidthMode::MatchMax, 700, &vec![], 720), 700);
}

#[test]
fn match_max_centres_a_narrow_image() {
    assert_eq!(x_offset(WidthMode::MatchMax, 9, 4), 2);
    assert_eq!(x_offset(WidthMode::MatchMax, 4, 9), 0);
    assert_eq!(x_offset(WidthMode::AutoUniform, 9, 4), 0);
    let mut settings = direct_settings(100, WidthMode::MatchMax);
    settings.fill_color = 1;
    let images = vec![plain(9, 2, [1, 2, 3, 255]), plain(4, 3, [40, 50, 60, 255])];
    let pages = stitch_images(settings, 9, &images).unwrap();
    assert_eq!(pages.len(), 1);
    let page = &pages[0];
    assert_eq!((page.width(), page.height()), (9, 5));
    for y in 2..5 {
        for x in 0..9 {
            let expect = if (2..6).contains(&x) { [40, 50, 60, 255] } else { [255, 255, 255, 255] };
            for c in 0..4u8 {
                assert_eq!(page.channel(x, y, c), expect[c as usize], "x {} y {} c {}", x, y, c);
            }
        }
    }
    for x in 0..9 {
        assert_eq!(page.channel(x, 1, 2), 3);
    }
}

#[test]
fn a_new_width_restarts_the_canvas() {
    let settings = direct_settings(10, WidthMode::NoEnforcement);
    let mut stitcher = Stitcher::new(settings, 4).unwrap();
    let first = stitcher.push(&plain(4, 13, [1, 1, 1, 255])).unwrap();
    assert_eq!(heights(&first), vec![10]);
    assert_eq!(stitcher.pending_height(), 3);
    let second = stitcher.push(&plain(6, 12, [2, 2, 2, 255])).unwrap();
    assert_eq!(heights(&second), vec![3, 10]);
    assert_eq!(second[0].width(), 4);
    assert_eq!(second[1].width(), 6);
    assert_eq!(stitcher.width(), 6);
    assert_eq!(stitcher.pending_height(), 2);
    let last = stitcher.finish().unwrap();
    assert_eq!((last.width(), last.height()), (6, 2));
}

#[test]
fn an_empty_canvas_restarts_without_a_page() {
    let settings = direct_settings(10, WidthMode::NoEnforcement);
    let mut stitcher = Stitcher::new(settings, 4).unwrap();
    let first = stitcher.push(&plain(4, 10, [1, 1, 1, 255])).unwrap();
    assert_eq!(heights(&first), vec![10]);
    let second = stitcher.push(&plain(6, 4, [2, 2, 2, 255])).unwrap();
    assert!(second.is_empty());
    assert_eq!(stitcher.width(), 6);
    assert_eq!(stitcher.pending_height(), 4);
}

#[test]
fn finish_of_an_empty_canvas_gives_no_page() {
    let stitcher = Stitcher::new(direct_settings(10, WidthMode::AutoUniform), 4).unwrap();
    assert_eq!(stitcher.width(), 4);
    assert!(stitcher.finish().is_none());
}

#[test]
fn an_invalid_configuration_is_refused() {
    let mut zero = StitchSettings::default();
    zero.split_height = 0;
    assert_eq!(zero.validate(), Err(ConfigError::ZeroSplitHeight));
    assert!(matches!(Stitcher::new(zero.clone(), 4), Err(ConfigError::ZeroSplitHeight)));
    assert!(matches!(
        stitch_images(zero, 4, &vec![]),
        Err(RunError::Config(ConfigError::ZeroSplitHeight))
    ));
    let mut keen = StitchSettings::default();
    keen.sensitivity = 101;
    assert_eq!(keen.validate(), Err(ConfigError::SensitivityOutOfRange));
    let mut still = StitchSettings::default();
    still.scan_step = 0;
    assert_eq!(still.validate(), Err(ConfigError::ZeroScanStep));
    assert!(matches!(
        stitch_normalized(still, 4, &vec![]),
        Err(RunError::Config(ConfigError::ZeroScanStep))
    ));
    assert_eq!(StitchSettings::default().validate(), Ok(()));
    // a direct split never uses the scan step
    let mut direct = direct_settings(10, WidthMode::AutoUniform);
    direct.scan_step = 0;
    assert_eq!(direct.validate(), Ok(()));
    let pages = stitch_normalized(direct, 2, &vec![plain(2, 25, [1, 1, 1, 255])]).unwrap();
    assert_eq!(heights(&pages), vec![10, 10, 5]);
}

#[test]
fn too_many_rows_are_refused() {
    let settings = direct_settings(u32::MAX, WidthMode::AutoUniform);
    let tall = Canvas::filled(0, 4_000_000_000, FillColor::Black);
    let mut stitcher = Stitcher::new(settings.clone(), 0).unwrap();
    assert!(stitcher.push_normalized(&tall).unwrap().is_empty());
    assert_eq!(stitcher.pending_height(), 4_000_000_000);
    assert!(matches!(stitcher.push_normalized(&tall), Err(StitchError::CanvasTooTall)));
    assert_eq!(stitcher.pending_height(), 4_000_000_000);
    let both = vec![
        Canvas::filled(0, 4_000_000_000, FillColor::Black),
        Canvas::filled(0, 4_000_000_000, FillColor::Black),
    ];
    assert!(matches!(
        stitch_normalized(settings, 0, &both),
        Err(RunError::Image(1, StitchError::CanvasTooTall))
    ));
}

#[test]
fn a_very_tall_picture_is_scaled_down() {
    let rows: u32 = 2_097_153;
    let tall = Canvas::from_raw(2, rows, vec![200u8; 2 * rows as usize * 4]).unwrap();
    let scaled = normalize(tall, WidthMode::AutoUniform, 1).unwrap();
    assert_eq!((scaled.width(), scaled.height()), (1, 1_048_576));
    assert_eq!(scaled.channel(0, 0, 0), 200);
    assert_eq!(scaled.channel(0, 1_048_575, 3), 200);
}

#[test]
fn a_very_tall_picture_is_scaled_up() {
    let rows: u32 = 1_048_575;
    let tall = Canvas::from_raw(1, rows, vec![100u8; rows as usize * 4]).unwrap();
    let scaled = normalize(tall, WidthMode::AutoUniform, 2).unwrap();
    assert_eq!((scaled.width(), scaled.height()), (2, 2_097_150));
    assert_eq!(scaled.channel(1, 0, 1), 100);
    assert_eq!(scaled.channel(1, 2_097_149, 2), 100);
}

#[test]
fn pictures_beyond_the_limit_of_the_filter_are_refused() {
    // too many rows in the picture
    let rows: u32 = 8_388_608;
    let tall = Canvas::from_raw(2, rows, vec![0u8; 2 * rows as usize * 4]).unwrap();
    assert!(matches!(
        normalize(tall, WidthMode::AutoUniform, 1),
        Err(StitchError::ImageTooLarge)
    ));
    // too many rows in what it would become
    let rows: u32 = 4_194_304;
    let tall = Canvas::from_raw(1, rows, vec![0u8; rows as usize * 4]).unwrap();
    assert!(matches!(
        normalize(tall, WidthMode::AutoUniform, 2),
        Err(StitchError::ImageTooLarge)
    ));
    // too many columns in the picture, and in what it would become
    let wide = Canvas::from_raw(8_388_608, 1, vec![0u8; 8_388_608 * 4]).unwrap();
    assert!(matches!(normalize(wide, WidthMode::Custom, 4), Err(StitchError::ImageTooLarge)));
    let dot = plain(1, 1, [0, 0, 0, 255]);
    assert!(matches!(
        normalize(dot, WidthMode::Custom, 8_388_608),
        Err(StitchError::ImageTooLarge)
    ));
    // one column, 33,554,435 rows, to two columns
    let rows: u32 = 33_554_435;
    let strip = Canvas::from_raw(1, rows, vec![0u8; rows as usize * 4]).unwrap();
    assert!(matches!(
        normalize(strip, WidthMode::AutoUniform, 2),
        Err(StitchError::ImageTooLarge)
    ));
}

#[test]
fn the_widest_picture_that_is_scaled() {
    let wide = Canvas::from_raw(8_388_607, 1, vec![50u8; 8_388_607 * 4]).unwrap();
    let scaled = normalize(wide, WidthMode::Custom, 8_388_606).unwrap();
    assert_eq!((scaled.width(), scaled.height()), (8_388_606, 0));
}

#[test]
fn a_very_wide_picture_is_scaled_up() {
    let wide = Canvas::from_raw(1_048_575, 2, vec![50u8; 1_048_575 * 2 * 4]).unwrap();
    let scaled = normalize(wide, WidthMode::Custom, 2_097_150).unwrap();
    assert_eq!((scaled.width(), scaled.height()), (2_097_150, 4));
    assert_eq!(scaled.channel(2_097_149, 3, 0), 50);
    assert_eq!(scaled.channel(0, 0, 3), 50);
}

#[test]
fn scaling_beyond_memory_is_refused() {
    let mut settings = direct_settings(10, WidthMode::Custom);
    settings.custom_width = u32::MAX;
    let mut stitcher = Stitcher::new(settings.clone(), u32::MAX).unwrap();
    let dot = plain(1, 1, [0, 0, 0, 255]);
    assert!(matches!(stitcher.push(&dot), Err(StitchError::ImageTooLarge)));
    assert_eq!(stitcher.pending_height(), 0);
    assert!(matches!(
        normalize(plain(1, 1, [0, 0, 0, 255]), WidthMode::Custom, u32::MAX),
        Err(StitchError::ImageTooLarge)
    ));
    assert!(matches!(
        stitch_images(settings, u32::MAX, &vec![dot]),
        Err(RunError::Image(0, StitchError::ImageTooLarge))
    ));
}
