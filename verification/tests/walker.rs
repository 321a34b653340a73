use culler_core::scan::walker::{has_image_extension, is_hidden, IMAGE_EXTENSIONS};

#[test]
fn image_extensions_match_case_insensitively() {
    assert!(has_image_extension("/lib/kids-beach.jpg"));
    assert!(has_image_extension("/lib/IMG_0001.JPG"));
    assert!(has_image_extension("/lib/raw/DSC01.Arw"));
    assert!(has_image_extension("photo.heic"));
    assert!(has_image_extension("/lib/archive.tar.png"));
    for ext in IMAGE_EXTENSIONS {
        assert!(has_image_extension(&format!("/x/y.{ext}")), "{ext}");
    }
}

#[test]
fn non_images_and_odd_names_are_not_images() {
    assert!(!has_image_extension("/lib/notes.txt"));
    assert!(!has_image_extension("/lib/jpg"));
    assert!(!has_image_extension("/lib/.jpg"));
    assert!(!has_image_extension("/lib/photo."));
    assert!(!has_image_extension("/lib.jpg/photo"));
    assert!(!has_image_extension("/lib/photo.jpeg2"));
    assert!(!has_image_extension("/lib/photo.JPǴ"));
    assert!(!has_image_extension(""));
}

#[test]
fn hidden_entries_are_dot_prefixed_below_the_root() {
    assert!(is_hidden(1, ".cache"));
    assert!(is_hidden(3, ".hidden.jpg"));
    assert!(!is_hidden(0, ".library"), "an explicitly chosen hidden root still scans");
    assert!(!is_hidden(2, "photo.jpg"));
    assert!(!is_hidden(2, ""));
}

#[test]
fn hidden_image_file_still_has_an_image_extension() {
    assert!(has_image_extension("/lib/.hidden.jpg"));
}
