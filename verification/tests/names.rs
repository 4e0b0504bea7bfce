use smartstitch::args::{fill_in_output, post_process_args, split_args};
use smartstitch::files::{has_image_file, image_files, image_kind, sort_naturally, ImageKind};
use smartstitch::models::{DetectorType, FillColor, StitchSettings, WidthMode};
use smartstitch::plan::{
    folders_to_process, output_place, page_file_name, status_line, stitched_name, OutputPlace,
    RunFolders, Subfolder,
};
use smartstitch::profiles::{AppConfig, ProfileError};

fn strings(names: &[&str]) -> Vec<String> {
    names.iter().map(|n| n.to_string()).collect()
}

#[test]
fn natural_sort_reads_numbers() {
    assert_eq!(image_files(&strings(&["10.png", "2.png", "1.png"])), strings(&["1.png", "2.png", "10.png"]));
    assert_eq!(sort_naturally(&strings(&["1.png", "10.png", "2.png"])), strings(&["1.png", "2.png", "10.png"]));
    assert_eq!(
        sort_naturally(&strings(&["rfc2086.txt", "rfc822.txt", "rfc1.txt"])),
        strings(&["rfc1.txt", "rfc822.txt", "rfc2086.txt"])
    );
}

#[test]
fn natural_sort_keeps_every_name() {
    let names = strings(&["b", "a", "b", "a10", "a9", "b"]);
    assert_eq!(sort_naturally(&names), strings(&["a", "a9", "a10", "b", "b", "b"]));
    assert!(sort_naturally(&vec![]).is_empty());
}

#[test]
fn image_kind_goes_by_the_extension() {
    for name in ["a.png", "a.jpg", "a.jpeg", "a.webp", "a.bmp", "a.tiff", "a.avif", "A.PNG", "b.JpEg", "x.y.png"] {
        assert_eq!(image_kind(name), Some(ImageKind::Raster), "{}", name);
    }
    assert_eq!(image_kind("layers.psd"), Some(ImageKind::Layered));
    assert_eq!(image_kind("LAYERS.PSD"), Some(ImageKind::Layered));
    for name in ["a.txt", "a.tif", "png", ".png", "a.png.bak", "a.", "a", "", "a.pngx", "a png"] {
        assert_eq!(image_kind(name), None, "{}", name);
    }
}

#[test]
fn image_files_keeps_images_only() {
    let entries = strings(&["notes.txt", "3.jpg", "12.PNG", "1.psd", "thumbs.db", ".png", "2.webp"]);
    assert_eq!(image_files(&entries), strings(&["1.psd", "2.webp", "3.jpg", "12.PNG"]));
    assert!(image_files(&strings(&["a.txt", "b"])).is_empty());
    assert!(has_image_file(&entries));
    assert!(!has_image_file(&strings(&["a.txt", "b"])));
    assert!(!has_image_file(&vec![]));
}

#[test]
fn split_args_cuts_at_blanks() {
    assert_eq!(split_args("-in {output}"), strings(&["-in", "{output}"]));
    assert_eq!(split_args("  a \t b  "), strings(&["a", "b"]));
    assert!(split_args("").is_empty());
    assert!(split_args(" \t ").is_empty());
}

#[test]
fn split_args_keeps_blanks_in_quotes() {
    assert_eq!(split_args("-o \"my folder\" x"), strings(&["-o", "my folder", "x"]));
    assert_eq!(split_args("'a b'c d"), strings(&["a bc", "d"]));
    // either kind of quote closes what the other opened
    assert_eq!(split_args("\"a 'b\" c' d"), strings(&["a b c", "d"]));
    assert_eq!(split_args("a \"\" b"), strings(&["a", "b"]));
    assert_eq!(split_args("\"open to the end"), strings(&["open to the end"]));
}

#[test]
fn fill_in_output_replaces_the_placeholder() {
    assert_eq!(fill_in_output("{output}", "/x/y"), "/x/y");
    assert_eq!(fill_in_output("--dir={output}/{output}", "o"), "--dir=o/o");
    assert_eq!(fill_in_output("{output", "o"), "{output");
    assert_eq!(fill_in_output("{{output}}", "o"), "{o}");
    assert_eq!(fill_in_output("", "o"), "");
    assert_eq!(fill_in_output("{output}", "{output}"), "{output}");
}

#[test]
fn post_process_args_for_a_folder() {
    assert_eq!(post_process_args("-in {output}", "/x/y"), strings(&["-in", "/x/y"]));
    assert_eq!(
        post_process_args("-in \"{output}/a b\" -q", "/x y"),
        strings(&["-in", "/x y/a b", "-q"])
    );
    assert!(post_process_args("", "/x/y").is_empty());
}

#[test]
fn output_goes_beside_the_input_folder() {
    let mut s = StitchSettings::default();
    assert!(matches!(output_place(&s, "chapter 1"), OutputPlace::Sibling(n) if n == "chapter 1 [Stitched]"));
    s.batch_mode = true;
    assert!(matches!(output_place(&s, "chapter 1"), OutputPlace::Sibling(n) if n == "chapter 1 [Stitched]"));
    s.output_path = "/out".to_string();
    assert!(matches!(output_place(&s, "chapter 1"), OutputPlace::Below(n) if n == "chapter 1 [Stitched]"));
    s.batch_mode = false;
    assert!(matches!(output_place(&s, "chapter 1"), OutputPlace::Configured));
    assert_eq!(stitched_name(""), " [Stitched]");
}

#[test]
fn pages_are_numbered_in_two_digits() {
    assert_eq!(page_file_name(1, ".png"), "01.png");
    assert_eq!(page_file_name(9, ".jpg"), "09.jpg");
    assert_eq!(page_file_name(10, ".png"), "10.png");
    assert_eq!(page_file_name(123, ".webp"), "123.webp");
    assert_eq!(page_file_name(0, ""), "00");
    assert_eq!(page_file_name(u32::MAX, ".png"), "4294967295.png");
}

#[test]
fn status_names_folder_and_file() {
    assert_eq!(status_line(1, 1, 3, 12), "Processing 3/12");
    assert_eq!(status_line(2, 5, 1, 1), "[Folder 2/5] Processing 1/1");
    assert_eq!(status_line(10, 100, 1000, 10000), "[Folder 10/100] Processing 1000/10000");
    assert_eq!(status_line(0, 0, 0, u64::MAX), "Processing 0/18446744073709551615");
}

#[test]
fn batch_takes_the_folders_with_images() {
    let folders = vec![
        Subfolder { name: "ch10".to_string(), entries: strings(&["1.png"]) },
        Subfolder { name: "notes".to_string(), entries: strings(&["a.txt"]) },
        Subfolder { name: "ch2".to_string(), entries: strings(&["x", "1.JPG"]) },
        Subfolder { name: "empty".to_string(), entries: vec![] },
    ];
    assert!(matches!(
        folders_to_process(true, &folders),
        RunFolders::Subfolders(names) if names == strings(&["ch2", "ch10"])
    ));
    assert!(matches!(folders_to_process(false, &folders), RunFolders::Root));
    assert!(matches!(folders_to_process(false, &vec![]), RunFolders::Root));
}

#[test]
fn a_batch_without_images_takes_no_folder() {
    let folders = vec![
        Subfolder { name: "notes".to_string(), entries: strings(&["a.txt"]) },
        Subfolder { name: "empty".to_string(), entries: vec![] },
    ];
    assert!(matches!(
        folders_to_process(true, &folders),
        RunFolders::Subfolders(names) if names.is_empty()
    ));
    assert!(matches!(
        folders_to_process(true, &vec![]),
        RunFolders::Subfolders(names) if names.is_empty()
    ));
}

#[test]
fn default_settings() {
    let s = StitchSettings::default();
    assert_eq!(s.input_path, "");
    assert_eq!(s.output_path, "");
    assert_eq!(s.output_type, ".png");
    assert_eq!(s.split_height, 5000);
    assert_eq!(s.width_enforce_type, 1);
    assert_eq!(s.custom_width, 720);
    assert_eq!(s.sensitivity, 90);
    assert_eq!(s.scan_step, 5);
    assert_eq!(s.ignorable_margin, 5);
    assert!(!s.batch_mode);
    assert_eq!(s.detector_type, 0);
    assert_eq!(s.fill_color, 0);
    assert!(!s.enable_post_process);
    assert_eq!(s.post_process_path, "");
    assert_eq!(s.post_process_args, "");
    assert_eq!(s.width_mode(), WidthMode::AutoUniform);
    assert_eq!(s.detector(), DetectorType::Smart);
    assert_eq!(s.fill(), FillColor::Black);
    assert!(!s.wants_post_process());
    let copy = s.clone();
    assert_eq!(copy.output_type, ".png");
    assert_eq!(copy.split_height, 5000);
}

#[test]
fn codes_name_the_modes() {
    let modes = [
        WidthMode::NoEnforcement,
        WidthMode::AutoUniform,
        WidthMode::MatchMin,
        WidthMode::Custom,
        WidthMode::MatchMax,
    ];
    for (code, mode) in modes.iter().enumerate() {
        assert_eq!(WidthMode::from_code(code as u8), *mode);
        assert_eq!(mode.code(), code as u8);
    }
    assert_eq!(WidthMode::from_code(5), WidthMode::AutoUniform);
    assert_eq!(WidthMode::from_code(255), WidthMode::AutoUniform);
    assert_eq!(DetectorType::from_code(0), DetectorType::Smart);
    assert_eq!(DetectorType::from_code(1), DetectorType::DirectSplit);
    assert_eq!(DetectorType::from_code(2), DetectorType::Smart);
    assert_eq!(DetectorType::DirectSplit.code(), 1);
    assert_eq!(FillColor::from_code(0), FillColor::Black);
    assert_eq!(FillColor::from_code(1), FillColor::White);
    assert_eq!(FillColor::from_code(7), FillColor::Black);
    assert_eq!(FillColor::White.code(), 1);
}

#[test]
fn post_process_needs_a_switch_and_a_path() {
    let mut s = StitchSettings::default();
    s.enable_post_process = true;
    assert!(!s.wants_post_process());
    s.post_process_path = "/bin/true".to_string();
    assert!(s.wants_post_process());
    s.enable_post_process = false;
    assert!(!s.wants_post_process());
}

#[test]
fn a_new_installation_has_the_default_profile() {
    let config = AppConfig::initial();
    assert_eq!(config.current_profile(), "Default");
    assert_eq!(config.len(), 1);
    assert_eq!(config.entry(0).name, "Default");
    let mut two = AppConfig::initial();
    two.insert_profile("Other".to_string(), StitchSettings::default());
    let mut seen = vec![two.entry(0).name.clone(), two.entry(1).name.clone()];
    seen.sort();
    assert_eq!(seen, strings(&["Default", "Other"]));
    assert_eq!(config.profile(&"Default".to_string()).unwrap().split_height, 5000);
    assert!(config.profile(&"Other".to_string()).is_none());
    let none = AppConfig::empty("x".to_string());
    assert_eq!(none.len(), 0);
    assert_eq!(none.current_profile(), "x");
}

#[test]
fn saving_a_profile_makes_it_current() {
    let mut config = AppConfig::initial();
    let mut wide = StitchSettings::default();
    wide.custom_width = 1000;
    config.save_profile("Wide".to_string(), wide.clone());
    assert_eq!(config.current_profile(), "Wide");
    assert_eq!(config.len(), 2);
    assert_eq!(config.profile(&"Wide".to_string()).unwrap().custom_width, 1000);
    wide.custom_width = 1200;
    config.save_profile("Wide".to_string(), wide.clone());
    assert_eq!(config.len(), 2);
    assert_eq!(config.profile(&"Wide".to_string()).unwrap().custom_width, 1200);
    config.insert_profile("Third".to_string(), wide);
    assert_eq!(config.len(), 3);
    assert_eq!(config.current_profile(), "Wide");
}

#[test]
fn deleting_a_profile() {
    let mut config = AppConfig::initial();
    config.save_profile("A".to_string(), StitchSettings::default());
    config.save_profile("B".to_string(), StitchSettings::default());
    assert_eq!(config.delete_profile(&"Default".to_string()), Err(ProfileError::CannotDeleteDefault));
    assert_eq!(config.len(), 3);
    assert_eq!(config.delete_profile(&"A".to_string()), Ok(()));
    assert_eq!(config.len(), 2);
    assert_eq!(config.current_profile(), "B");
    assert!(config.profile(&"A".to_string()).is_none());
    assert_eq!(config.delete_profile(&"B".to_string()), Ok(()));
    assert_eq!(config.current_profile(), "Default");
    assert_eq!(config.delete_profile(&"missing".to_string()), Ok(()));
    assert_eq!(config.len(), 1);
    assert_eq!(ProfileError::CannotDeleteDefault.message(), "Cannot delete Default profile");
}

#[test]
fn choosing_the_current_profile() {
    let mut config = AppConfig::initial();
    config.save_profile("A".to_string(), StitchSettings::default());
    assert_eq!(config.set_current_profile("Default".to_string()), Ok(()));
    assert_eq!(config.current_profile(), "Default");
    assert_eq!(config.set_current_profile("nope".to_string()), Err(ProfileError::NotFound));
    assert_eq!(config.current_profile(), "Default");
    assert_eq!(ProfileError::NotFound.message(), "Profile not found");
}
