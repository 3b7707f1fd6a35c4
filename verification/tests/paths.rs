use watame::pages::post::{format_paths, image_path, thumbnail_crop, THUMB_SIZE};

#[test]
fn the_subfolder_is_bits_16_to_23_of_the_identifier() {
    assert_eq!(image_path(0), "00");
    assert_eq!(image_path(1), "00");
    assert_eq!(image_path(65535), "00");
    assert_eq!(image_path(65536), "01");
    assert_eq!(image_path(0x00ab_0000), "ab");
    assert_eq!(image_path(0x00ff_ffff), "ff");
    assert_eq!(image_path(i64::MAX), "ff");
}

#[test]
fn the_subfolder_has_two_digits_for_every_identifier() {
    assert_eq!(image_path(0x0100_0000), "00");
    assert_eq!(image_path(0x01fe_0000), "fe");
    assert_eq!(image_path(0x1234_5678_9abc), "78");
}

#[test]
fn the_subfolder_of_a_negative_identifier() {
    assert_eq!(image_path(-1), "ff");
    assert_eq!(image_path(-65536), "ff");
    assert_eq!(image_path(-65537), "fe");
    assert_eq!(image_path(i64::MIN), "00");
}

#[test]
fn paths_follow_the_layout_of_the_storage() {
    assert_eq!(
        format_paths("/srv/data", "ab", 17, "cat.png"),
        (
            "/srv/data/img/ab/17-cat.png".to_string(),
            "/srv/data/tmb/ab/17-thumbnail.jpg".to_string()
        )
    );
}

#[test]
fn a_root_that_ends_in_a_slash_gets_no_second_one() {
    assert_eq!(
        format_paths("./storage/", "00", 1, "a.jpg"),
        (
            "./storage/img/00/1-a.jpg".to_string(),
            "./storage/tmb/00/1-thumbnail.jpg".to_string()
        )
    );
}

#[test]
fn an_empty_root_gives_relative_paths() {
    assert_eq!(
        format_paths("", "0f", -3, ""),
        ("img/0f/-3-".to_string(), "tmb/0f/-3-thumbnail.jpg".to_string())
    );
}

#[test]
fn the_thumbnail_is_cut_from_the_middle() {
    assert_eq!(thumbnail_crop(100, 60), (20, 0, 60));
    assert_eq!(thumbnail_crop(60, 100), (0, 20, 60));
    assert_eq!(thumbnail_crop(50, 50), (0, 0, 50));
    assert_eq!(thumbnail_crop(0, 7), (0, 3, 0));
    assert_eq!(thumbnail_crop(u32::MAX, 1), (2147483647, 0, 1));
    assert_eq!(THUMB_SIZE, 320);
}
