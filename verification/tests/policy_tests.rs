use media_watch::policy::{is_hidden, is_ignored_dir, is_img_dir, name_matches, Policy};

fn b(s: &str) -> Vec<u8> {
    s.as_bytes().to_vec()
}

#[test]
fn hidden_names_never_match() {
    let policy = Policy::new();
    // Hidden entries are never matched, whatever the extension and
    // whatever the owning directory's eligibility.
    for name in [".IMG_1.jpg", ".vid.mp4", ".raw.dng", ".png"] {
        assert!(is_hidden(&b(name)));
        assert!(!name_matches(&b(name), true, &policy));
        assert!(!name_matches(&b(name), false, &policy));
    }
    assert!(!is_hidden(&b("IMG_1.jpg")));
    assert!(!is_hidden(&b("")));
}

#[test]
fn video_and_raw_always_match() {
    let policy = Policy::new();
    for allow_img in [false, true] {
        assert!(name_matches(&b("VID_1.mp4"), allow_img, &policy));
        assert!(name_matches(&b("shot.dng"), allow_img, &policy));
    }
}

#[test]
fn extension_matching_is_case_insensitive() {
    let policy = Policy::new();
    assert!(name_matches(&b("VID_1.MP4"), true, &policy));
    assert!(name_matches(&b("raw.DNG"), true, &policy));
    assert!(name_matches(&b("pic.JPeG"), false, &policy));
}

#[test]
fn generic_images_match_only_outside_camera_directories() {
    let policy = Policy::new();
    // In an image-capable directory, generic images stay.
    assert!(!name_matches(&b("IMG_1.jpg"), true, &policy));
    assert!(!name_matches(&b("shot.png"), true, &policy));
    // Outside one, they are move candidates.
    assert!(name_matches(&b("IMG_1.jpg"), false, &policy));
    assert!(name_matches(&b("shot.png"), false, &policy));
    for ext in ["jpeg", "gif", "webp", "bmp", "tif", "tiff", "jxl", "apng"] {
        let name = format!("f.{}", ext);
        assert!(name_matches(&b(&name), false, &policy));
        assert!(!name_matches(&b(&name), true, &policy));
    }
}

#[test]
fn names_without_extension_never_match() {
    let policy = Policy::new();
    assert!(!name_matches(&b("Makefile"), false, &policy));
    assert!(!name_matches(&b("archive."), false, &policy));
    assert!(!name_matches(&b("mp4"), false, &policy));
    assert!(!name_matches(&b(""), false, &policy));
}

#[test]
fn unknown_extensions_never_match() {
    let policy = Policy::new();
    assert!(!name_matches(&b("notes.txt"), false, &policy));
    assert!(!name_matches(&b("clip.mov"), false, &policy));
}

#[test]
fn image_capable_directories() {
    assert!(is_img_dir(&b("Camera")));
    assert!(is_img_dir(&b("MyCamera")));
    assert!(is_img_dir(&b("ABC_PRO")));
    assert!(is_img_dir(&b("100ANDRO")));
    // Classification looks at the first path component only.
    assert!(is_img_dir(&b("Camera/Burst")));
    assert!(is_img_dir(&b("100ANDRO/sub/deep")));
    assert!(!is_img_dir(&b("Screenshots")));
    assert!(!is_img_dir(&b("Camerax")));
    assert!(!is_img_dir(&b("100ANDROx")));
    assert!(!is_img_dir(&b("Burst/Camera")));
    assert!(!is_img_dir(&b(".")));
}

#[test]
fn ignored_directories_only_in_place() {
    assert!(is_ignored_dir(&b("DSC_2024"), true));
    assert!(is_ignored_dir(&b("DSC_20"), true));
    assert!(!is_ignored_dir(&b("DSC_2024"), false));
    assert!(!is_ignored_dir(&b("DSC_19"), true));
    assert!(!is_ignored_dir(&b("Camera"), true));
}
