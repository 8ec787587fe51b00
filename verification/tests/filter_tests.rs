use folder_watcher::filter::{get_media_type, is_hidden, is_media_file, MediaType};

#[test]
fn test_video_extensions() {
    assert_eq!(get_media_type("test.mp4"), Some(MediaType::Video));
    assert_eq!(get_media_type("test.MOV"), Some(MediaType::Video));
    assert_eq!(get_media_type("test.mxf"), Some(MediaType::Video));
}

#[test]
fn test_audio_extensions() {
    assert_eq!(get_media_type("test.mp3"), Some(MediaType::Audio));
    assert_eq!(get_media_type("test.WAV"), Some(MediaType::Audio));
}

#[test]
fn test_image_extensions() {
    assert_eq!(get_media_type("test.jpg"), Some(MediaType::Image));
    assert_eq!(get_media_type("test.PNG"), Some(MediaType::Image));
    assert_eq!(get_media_type("test.psd"), Some(MediaType::Image));
}

#[test]
fn test_project_extensions() {
    assert_eq!(get_media_type("test.prproj"), Some(MediaType::Project));
    assert_eq!(get_media_type("test.mogrt"), Some(MediaType::Project));
}

#[test]
fn test_non_media_files() {
    assert_eq!(get_media_type("test.txt"), None);
    assert_eq!(get_media_type("test.rs"), None);
    assert_eq!(get_media_type("test"), None);
}

#[test]
fn test_is_media_file() {
    assert!(is_media_file("video.mp4"));
    assert!(!is_media_file("document.txt"));
}

#[test]
fn test_is_hidden() {
    assert!(is_hidden(".hidden"));
    assert!(is_hidden(".DS_Store"));
    assert!(!is_hidden("visible.mp4"));
}

#[test]
fn test_every_table_member_both_cases() {
    let video = [
        "mp4", "mov", "avi", "mkv", "wmv", "flv", "webm", "m4v", "mpg", "mpeg", "mxf", "r3d",
        "braw", "ari",
    ];
    let audio = ["mp3", "wav", "aac", "flac", "ogg", "m4a", "aiff", "aif", "wma"];
    let image = [
        "jpg", "jpeg", "png", "gif", "bmp", "tiff", "tif", "psd", "ai", "eps", "webp", "exr",
        "dpx", "tga", "raw", "cr2",
    ];
    let project = ["prproj", "mogrt", "xml", "aaf", "edl"];
    for (exts, cat) in [
        (&video[..], MediaType::Video),
        (&audio[..], MediaType::Audio),
        (&image[..], MediaType::Image),
        (&project[..], MediaType::Project),
    ] {
        for e in exts {
            let lower = format!("clip.{}", e);
            let upper = format!("clip.{}", e.to_uppercase());
            assert_eq!(get_media_type(&lower), Some(cat), "{}", lower);
            assert_eq!(get_media_type(&upper), Some(cat), "{}", upper);
        }
    }
}

#[test]
fn test_paths_with_directories() {
    assert_eq!(get_media_type("/media/project/clip.mp4"), Some(MediaType::Video));
    assert_eq!(get_media_type("/media/project.mp4/readme"), None);
    assert_eq!(get_media_type("relative/dir/song.FLAC"), Some(MediaType::Audio));
}

#[test]
fn test_hidden_and_extension_corners() {
    // A leading dot alone marks a hidden entry, not an extension.
    assert_eq!(get_media_type(".mp4"), None);
    assert!(is_hidden(".mp4"));
    assert!(is_hidden("/some/dir/.cache"));
    assert!(!is_hidden("/some/.dir/visible.txt"));
    // A dot past the first character does give an extension.
    assert_eq!(get_media_type(".hidden.mp4"), Some(MediaType::Video));
    // A trailing dot gives an empty extension, which no table lists.
    assert_eq!(get_media_type("clip."), None);
}
