use ebloid::system::Platform;
use ebloid::naming::{
    available_download_path, download_name_candidate, timestamped_download_name, NameSearch,
    LAST_NUMBERED_ATTEMPT,
};

#[test]
fn numbers_names_before_the_extension() {
    assert_eq!(download_name_candidate("video.mp4", 0, Platform::Other), "video.mp4");
    assert_eq!(download_name_candidate("video.mp4", 1, Platform::Other), "video (1).mp4");
    assert_eq!(download_name_candidate("archive.tar.gz", 12, Platform::Other), "archive.tar (12).gz");
    assert_eq!(download_name_candidate("README", 3, Platform::Other), "README (3)");
    assert_eq!(download_name_candidate(".bashrc", 2, Platform::Other), ".bashrc (2)");
    assert_eq!(download_name_candidate("a.", 9999, Platform::Other), "a (9999).");
    assert_eq!(download_name_candidate("", 1, Platform::Other), "file (1)");
    assert_eq!(download_name_candidate("..", 1, Platform::Other), "file (1)");
    assert_eq!(download_name_candidate("dir/x.txt", 4, Platform::Other), "x (4).txt");
}

#[test]
fn every_attempt_tries_a_new_name() {
    let mut seen = std::collections::HashSet::new();
    for attempt in 0..=200u32 {
        assert!(seen.insert(download_name_candidate("clip.mp4", attempt, Platform::Other)));
    }
}

#[test]
fn searches_until_a_name_is_free() {
    match available_download_path("clip.mp4", 0, false, Platform::Other) {
        NameSearch::Use(name) => assert_eq!(name, "clip.mp4"),
        _ => panic!("a free name is used"),
    }
    assert!(matches!(available_download_path("clip.mp4", 0, true, Platform::Other), NameSearch::Try(1)));
    match available_download_path("clip.mp4", 7, false, Platform::Other) {
        NameSearch::Use(name) => assert_eq!(name, "clip (7).mp4"),
        _ => panic!("a free name is used"),
    }
    assert!(matches!(
        available_download_path("clip.mp4", LAST_NUMBERED_ATTEMPT, true, Platform::Other),
        NameSearch::UseTimestamped
    ));
    assert_eq!(timestamped_download_name(1700000000, "clip.mp4"), "1700000000-clip.mp4");
    assert_eq!(timestamped_download_name(0, "a"), "0-a");
}

#[test]
fn windows_names_drop_the_drive_and_both_separators() {
    assert_eq!(download_name_candidate("C:x.txt", 1, Platform::Windows), "x (1).txt");
    assert_eq!(download_name_candidate("C:x.txt", 1, Platform::MacOs), "C:x (1).txt");
    assert_eq!(download_name_candidate("a\\b.txt", 2, Platform::Windows), "b (2).txt");
    assert_eq!(download_name_candidate("a\\b.txt", 2, Platform::Other), "a\\b (2).txt");
    assert_eq!(download_name_candidate("C:", 1, Platform::Windows), "file (1)");
    assert_eq!(download_name_candidate("1:x", 1, Platform::Windows), "1:x (1)");
    match available_download_path("C:x.txt", 3, false, Platform::Windows) {
        NameSearch::Use(name) => assert_eq!(name, "x (3).txt"),
        _ => panic!("a free name is used"),
    }
}

#[test]
fn chosen_names_stay_single_components() {
    for platform in [Platform::Other, Platform::MacOs, Platform::Windows] {
        for name in ["clip.mp4", ".bashrc", "a", "...", "x."] {
            for attempt in 0..=LAST_NUMBERED_ATTEMPT {
                let chosen = download_name_candidate(name, attempt, platform);
                assert!(!chosen.is_empty());
                assert!(chosen != "." && chosen != "..");
                assert!(!chosen.contains('/'));
                if platform == Platform::Windows {
                    assert!(!chosen.contains('\\'));
                }
            }
            let stamped = timestamped_download_name(1700000000, name);
            assert!(!stamped.contains('/') && stamped != "." && stamped != "..");
        }
    }
}

#[test]
fn windows_prefixes_are_not_file_names() {
    let w = Platform::Windows;
    assert_eq!(download_name_candidate("\\\\server\\share", 1, w), "file (1)");
    assert_eq!(download_name_candidate("\\\\server\\share\\x.txt", 1, w), "x (1).txt");
    assert_eq!(download_name_candidate("//server/share/a.b", 1, w), "a (1).b");
    assert_eq!(download_name_candidate("\\\\server", 1, w), "server (1)");
    assert_eq!(download_name_candidate("\\\\.\\COM1", 1, w), "file (1)");
    assert_eq!(download_name_candidate("\\\\.\\pipe\\x.y", 1, w), "x (1).y");
    assert_eq!(download_name_candidate("\\\\?\\UNC\\srv\\shr", 1, w), "file (1)");
    assert_eq!(download_name_candidate("\\\\?\\UNC\\srv\\shr\\f.txt", 1, w), "f (1).txt");
    assert_eq!(download_name_candidate("\\\\?\\abc", 1, w), "file (1)");
    assert_eq!(download_name_candidate("\\\\?\\C:", 1, w), "file (1)");
    assert_eq!(download_name_candidate("\\\\?\\C:x.txt", 1, w), "file (1)");
    assert_eq!(download_name_candidate("\\\\?\\C:\\d\\a/b.txt", 1, w), "a/b (1).txt");
    assert_eq!(download_name_candidate("\\\\?\\C:\\d\\.", 1, w), "file (1)");
    assert_eq!(download_name_candidate("\\\\?\\C:\\d\\", 1, w), "d (1)");
    assert_eq!(download_name_candidate("\\\\?\\C:\\d\\..", 1, w), "file (1)");
    assert_eq!(download_name_candidate("\\\\server\\share", 1, Platform::Other), "\\\\server\\share (1)");
}

fn numbered_with_std_path(file_name: &str, index: u32) -> String {
    let path = std::path::Path::new(file_name);
    let stem = path.file_stem().and_then(|value| value.to_str()).unwrap_or("file");
    let extension = path.extension().and_then(|value| value.to_str());
    match extension {
        Some(extension) => format!("{stem} ({index}).{extension}"),
        None => format!("{stem} ({index})"),
    }
}

#[test]
fn numbered_names_match_std_paths_on_this_platform() {
    let platform = if std::path::MAIN_SEPARATOR == '\\' { Platform::Windows } else { Platform::Other };
    let names = [
        "clip.mp4", ".bashrc", "a.", "", ".", "..", "...", "..a", "a..b", ".x.y", "a/b.c", "a/",
        "/", "//", "a//b", "dir/x.tar.gz", "./x", "x/.", "x/..", "x/./", "/x/y/", "a\\b.txt",
        "C:x.txt", "C:", "\\\\server\\share", "\\\\server\\share\\f.txt", "//server/share/a.b",
        "\\\\server", "\\\\.\\COM1", "\\\\.\\pipe\\x.y", "\\\\?\\UNC\\srv\\shr\\f.txt",
        "\\\\?\\abc", "\\\\?\\C:", "\\\\?\\C:x.txt", "\\\\?\\C:\\d\\a/b.txt", "\\\\?\\C:\\d\\.",
        "\\\\?\\C:\\d\\", "\\\\?\\C:\\d\\..", "Имя файла.mp4", "name (1).txt",
    ];
    for name in names {
        for index in [1u32, 7, 9999] {
            assert_eq!(
                download_name_candidate(name, index, platform),
                numbered_with_std_path(name, index),
                "{name:?} at {index}"
            );
        }
    }
}
